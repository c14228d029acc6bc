//! Collision engine over primitive solids.
//!
//! Every shape does its mathematics in its own unit-local space (radius or
//! half-extent one); the `_transformed` and `_of` variants first map the
//! query point through the inverse half of a [`Transform`], and map results
//! back out through the forward half. The surface projections for the cube
//! and the cylinder, and the centre-distance rule deciding which of two
//! overlapping bodies is pushed out, are deliberate approximations; their
//! tie-breaks are part of the contract and are preserved exactly.
use vstd::prelude::*;
use vstd::arithmetic::div_mod::{lemma_div_is_ordered, lemma_div_multiples_vanish};
use crate::fixed::{Fx, FX_UNIT, mag, sqrt_floor, lemma_sqrt_floor, lemma_mag_mul};
use crate::geom::{V2, V3, Transform, raw_sq_sum3, raw_sq_sum2};

verus! {

/// A primitive solid, unit-sized in its local space.
#[derive(Clone, Copy, Debug, PartialEq, Eq, Structural)]
pub enum ColliderType {
    Cylinder,
    Cube,
    Sphere,
}

impl ColliderType {
    /// Whether a local-space point lies in the solid (boundary included).
    pub open spec fn spec_is_inside(self, point: V3) -> bool {
        match self {
            ColliderType::Sphere => point.spec_length().raw <= FX_UNIT,
            ColliderType::Cube => point.x.spec_abs().raw <= FX_UNIT
                && point.y.spec_abs().raw <= FX_UNIT
                && point.z.spec_abs().raw <= FX_UNIT,
            ColliderType::Cylinder => point.y.spec_abs().raw <= FX_UNIT
                && (V2 { x: point.x, y: point.z }).spec_length().raw <= FX_UNIT,
        }
    }

    /// Projection of a local-space point onto the solid's boundary.
    ///
    /// Sphere: normalise (the centre itself stays at the centre). Cube:
    /// clamp each axis, then snap only the axis whose clamped magnitude is
    /// strictly closest to one, ties favouring no axis. Cylinder: whichever
    /// of the radial gap and the cap gap is strictly smaller decides
    /// between the side surface and a cap.
    pub open spec fn spec_onto_surface(self, point: V3) -> V3 {
        let one = Fx { raw: FX_UNIT };
        match self {
            ColliderType::Sphere => point.spec_normalise(),
            ColliderType::Cube => {
                let rx = point.x.spec_clamp(one.spec_neg(), one);
                let ry = point.y.spec_clamp(one.spec_neg(), one);
                let rz = point.z.spec_clamp(one.spec_neg(), one);
                let dif_x = one.spec_sub(rx.spec_abs());
                let dif_y = one.spec_sub(ry.spec_abs());
                let dif_z = one.spec_sub(rz.spec_abs());
                if dif_x.raw < dif_y.raw && dif_x.raw < dif_z.raw {
                    V3 { x: rx.spec_signum(), y: ry, z: rz }
                } else if dif_y.raw < dif_x.raw && dif_y.raw < dif_z.raw {
                    V3 { x: rx, y: ry.spec_signum(), z: rz }
                } else if dif_z.raw < dif_x.raw && dif_z.raw < dif_y.raw {
                    V3 { x: rx, y: ry, z: rz.spec_signum() }
                } else {
                    V3 { x: rx, y: ry, z: rz }
                }
            },
            ColliderType::Cylinder => {
                let radial = V2 { x: point.x, y: point.z };
                let circle_dif = one.spec_sub(radial.spec_length().spec_min(one));
                let circle = radial.spec_normalise();
                let cap_dif = one.spec_sub(point.y.spec_abs().spec_min(one));
                if circle_dif.raw < cap_dif.raw {
                    V3 { x: circle.x, y: point.y.spec_clamp(one.spec_neg(), one), z: circle.y }
                } else {
                    let min_x = circle.x.spec_abs();
                    let min_z = circle.y.spec_abs();
                    V3 {
                        x: point.x.spec_clamp(min_x.spec_neg(), min_x),
                        y: point.y.spec_signum(),
                        z: point.z.spec_clamp(min_z.spec_neg(), min_z),
                    }
                }
            },
        }
    }

    /// Displacement from an overlapping local-space point to the boundary,
    /// or nothing when the point is outside.
    pub open spec fn spec_move_out(self, point: V3) -> Option<V3> {
        if !self.spec_is_inside(point) {
            None
        } else {
            Some(self.spec_onto_surface(point).spec_sub(point))
        }
    }

    pub open spec fn spec_is_inside_transformed(self, point: V3, trans: Transform) -> bool {
        self.spec_is_inside(trans.inv.spec_apply_point(point))
    }

    pub open spec fn spec_move_out_transformed(self, point: V3, trans: Transform) -> Option<V3> {
        match self.spec_move_out(trans.inv.spec_apply_point(point)) {
            None => None,
            Some(v) => Some(trans.mat.spec_apply_dir(v)),
        }
    }

    pub open spec fn spec_onto_surface_transformed(self, point: V3, trans: Transform) -> V3 {
        trans.mat.spec_apply_point(self.spec_onto_surface(trans.inv.spec_apply_point(point)))
    }

    /// Push the more deeply penetrating of two transformed bodies out of
    /// the other: each centre is projected onto the other body's surface,
    /// and the body whose centre sits strictly closer to its projection is
    /// the one moved (with the displacement negated when it is the caller).
    pub open spec fn spec_move_out_of(
        self,
        trans: Transform,
        other: ColliderType,
        other_trans: Transform,
    ) -> Option<V3> {
        let self_centre = trans.mat.spec_origin();
        let other_centre = other_trans.mat.spec_origin();
        let other_onto = self.spec_onto_surface_transformed(other_centre, trans);
        let self_onto = other.spec_onto_surface_transformed(self_centre, other_trans);
        if other_onto.spec_distance(other_centre).raw < self_onto.spec_distance(self_centre).raw {
            match other.spec_move_out_transformed(other_onto, other_trans) {
                None => None,
                Some(v) => Some(trans.mat.spec_apply_dir(v)),
            }
        } else {
            match self.spec_move_out_transformed(self_onto, trans) {
                None => None,
                Some(v) => Some(other_trans.mat.spec_apply_dir(v).spec_neg()),
            }
        }
    }

    /// The same centre-distance rule, answering only whether the losing
    /// body's projected point lies inside the other body.
    pub open spec fn spec_is_inside_of(
        self,
        trans: Transform,
        other: ColliderType,
        other_trans: Transform,
    ) -> bool {
        let self_centre = trans.mat.spec_origin();
        let other_centre = other_trans.mat.spec_origin();
        let other_onto = self.spec_onto_surface_transformed(other_centre, trans);
        let self_onto = other.spec_onto_surface_transformed(self_centre, other_trans);
        if other_onto.spec_distance(other_centre).raw < self_onto.spec_distance(self_centre).raw {
            other.spec_is_inside_transformed(other_onto, other_trans)
        } else {
            self.spec_is_inside_transformed(self_onto, trans)
        }
    }

    pub fn is_inside(self, point: V3) -> (r: bool)
        ensures
            r == self.spec_is_inside(point),
    {
        match self {
            ColliderType::Sphere => point.length().raw <= FX_UNIT,
            ColliderType::Cube => point.x.abs().raw <= FX_UNIT && point.y.abs().raw <= FX_UNIT
                && point.z.abs().raw <= FX_UNIT,
            ColliderType::Cylinder => point.y.abs().raw <= FX_UNIT && V2::new(
                point.x,
                point.z,
            ).length().raw <= FX_UNIT,
        }
    }

    pub fn is_inside_transformed(self, point: V3, trans: Transform) -> (r: bool)
        ensures
            r == self.spec_is_inside_transformed(point, trans),
    {
        self.is_inside(trans.inv.apply_point(point))
    }

    pub fn move_out(self, point: V3) -> (r: Option<V3>)
        ensures
            r == self.spec_move_out(point),
    {
        if !self.is_inside(point) {
            return None;
        }
        Some(self.onto_surface(point).sub(point))
    }

    pub fn move_out_transformed(self, point: V3, trans: Transform) -> (r: Option<V3>)
        ensures
            r == self.spec_move_out_transformed(point, trans),
    {
        match self.move_out(trans.inv.apply_point(point)) {
            None => None,
            Some(v) => Some(trans.mat.apply_dir(v)),
        }
    }

    pub fn onto_surface(self, point: V3) -> (r: V3)
        ensures
            r == self.spec_onto_surface(point),
    {
        let one = Fx { raw: FX_UNIT };
        match self {
            ColliderType::Sphere => point.normalise(),
            ColliderType::Cube => {
                let rx = point.x.clamp(one.neg(), one);
                let ry = point.y.clamp(one.neg(), one);
                let rz = point.z.clamp(one.neg(), one);
                let dif_x = one.sub(rx.abs());
                let dif_y = one.sub(ry.abs());
                let dif_z = one.sub(rz.abs());
                if dif_x.raw < dif_y.raw && dif_x.raw < dif_z.raw {
                    V3::new(rx.signum(), ry, rz)
                } else if dif_y.raw < dif_x.raw && dif_y.raw < dif_z.raw {
                    V3::new(rx, ry.signum(), rz)
                } else if dif_z.raw < dif_x.raw && dif_z.raw < dif_y.raw {
                    V3::new(rx, ry, rz.signum())
                } else {
                    V3::new(rx, ry, rz)
                }
            },
            ColliderType::Cylinder => {
                let radial = V2::new(point.x, point.z);
                let circle_dif = one.sub(radial.length().min(one));
                let circle = radial.normalise();
                let cap_dif = one.sub(point.y.abs().min(one));
                if circle_dif.raw < cap_dif.raw {
                    V3::new(circle.x, point.y.clamp(one.neg(), one), circle.y)
                } else {
                    let min_x = circle.x.abs();
                    let min_z = circle.y.abs();
                    V3::new(
                        point.x.clamp(min_x.neg(), min_x),
                        point.y.signum(),
                        point.z.clamp(min_z.neg(), min_z),
                    )
                }
            },
        }
    }

    pub fn onto_surface_transformed(self, point: V3, trans: Transform) -> (r: V3)
        ensures
            r == self.spec_onto_surface_transformed(point, trans),
    {
        trans.mat.apply_point(self.onto_surface(trans.inv.apply_point(point)))
    }

    pub fn move_out_of(
        self,
        trans: Transform,
        other: ColliderType,
        other_trans: Transform,
    ) -> (r: Option<V3>)
        ensures
            r == self.spec_move_out_of(trans, other, other_trans),
    {
        let self_centre = trans.mat.origin();
        let other_centre = other_trans.mat.origin();
        let other_onto = self.onto_surface_transformed(other_centre, trans);
        let self_onto = other.onto_surface_transformed(self_centre, other_trans);
        if other_onto.distance(other_centre).raw < self_onto.distance(self_centre).raw {
            match other.move_out_transformed(other_onto, other_trans) {
                None => None,
                Some(v) => Some(trans.mat.apply_dir(v)),
            }
        } else {
            match self.move_out_transformed(self_onto, trans) {
                None => None,
                Some(v) => Some(other_trans.mat.apply_dir(v).neg()),
            }
        }
    }

    pub fn is_inside_of(
        self,
        trans: Transform,
        other: ColliderType,
        other_trans: Transform,
    ) -> (r: bool)
        ensures
            r == self.spec_is_inside_of(trans, other, other_trans),
    {
        let self_centre = trans.mat.origin();
        let other_centre = other_trans.mat.origin();
        let other_onto = self.onto_surface_transformed(other_centre, trans);
        let self_onto = other.onto_surface_transformed(self_centre, other_trans);
        if other_onto.distance(other_centre).raw < self_onto.distance(self_centre).raw {
            other.is_inside_transformed(other_onto, other_trans)
        } else {
            self.is_inside_transformed(self_onto, trans)
        }
    }
}

/// The three cube slacks after clamping: how far each clamped axis
/// magnitude sits from one.
pub open spec fn cube_clamped(p: V3) -> V3 {
    let one = Fx { raw: FX_UNIT };
    V3 {
        x: p.x.spec_clamp(one.spec_neg(), one),
        y: p.y.spec_clamp(one.spec_neg(), one),
        z: p.z.spec_clamp(one.spec_neg(), one),
    }
}

/// Every component of a vector of length at most one is itself at most
/// one in magnitude, and no larger than the length.
proof fn lemma_len3_small(v: V3)
    requires
        v.spec_length().raw <= FX_UNIT,
    ensures
        mag(v.x.raw as int) <= v.spec_length().raw,
        mag(v.y.raw as int) <= v.spec_length().raw,
        mag(v.z.raw as int) <= v.spec_length().raw,
        v.spec_length().raw >= 0,
{
    let s = raw_sq_sum3(v.x, v.y, v.z);
    assert(v.x.raw * v.x.raw >= 0 && v.y.raw * v.y.raw >= 0 && v.z.raw * v.z.raw
        >= 0) by (nonlinear_arith);
    lemma_sqrt_floor(s as nat);
    let root = sqrt_floor(s as nat);
    lemma_component_le_root(v.x.raw as int, s, root as int);
    lemma_component_le_root(v.y.raw as int, s, root as int);
    lemma_component_le_root(v.z.raw as int, s, root as int);
}

/// The planar counterpart of `lemma_len3_small`.
proof fn lemma_len2_small(v: V2)
    requires
        v.spec_length().raw <= FX_UNIT,
    ensures
        mag(v.x.raw as int) <= v.spec_length().raw,
        mag(v.y.raw as int) <= v.spec_length().raw,
        v.spec_length().raw >= 0,
{
    let s = raw_sq_sum2(v.x, v.y);
    assert(v.x.raw * v.x.raw >= 0 && v.y.raw * v.y.raw >= 0) by (nonlinear_arith);
    lemma_sqrt_floor(s as nat);
    let root = sqrt_floor(s as nat);
    lemma_component_le_root(v.x.raw as int, s, root as int);
    lemma_component_le_root(v.y.raw as int, s, root as int);
}

/// A component whose square is within the summed square is bounded by the
/// square root of the sum.
proof fn lemma_component_le_root(x: int, s: int, root: int)
    requires
        x * x <= s,
        root >= 0,
        root * root <= s,
        s < (root + 1) * (root + 1),
    ensures
        mag(x) <= root,
{
    assert(mag(x) <= root) by (nonlinear_arith)
        requires
            x * x <= s,
            root >= 0,
            s < (root + 1) * (root + 1),
    ;
}

/// Dividing a component by a length at least as large keeps the quotient
/// within one.
proof fn lemma_div_le_unit(x: Fx, len: Fx)
    requires
        0 < len.raw,
        mag(x.raw as int) <= len.raw,
    ensures
        mag(x.spec_div(len).raw as int) <= FX_UNIT,
{
    lemma_mag_mul(x.raw as int, FX_UNIT as int);
    assert(mag(x.raw as int) * (FX_UNIT as int) <= (len.raw as int) * (FX_UNIT
        as int)) by (nonlinear_arith)
        requires
            mag(x.raw as int) <= len.raw as int,
    ;
    lemma_div_is_ordered(
        mag(x.raw as int) * (FX_UNIT as int),
        (len.raw as int) * (FX_UNIT as int),
        len.raw as int,
    );
    lemma_div_multiples_vanish(FX_UNIT as int, len.raw as int);
    assert((len.raw as int) * (FX_UNIT as int) == (len.raw as int) * (FX_UNIT
        as int));
}

/// Every component of the surface projection of an inside point stays
/// within one in magnitude.
proof fn lemma_onto_bounded(shape: ColliderType, p: V3)
    requires
        shape.spec_is_inside(p),
    ensures
        mag(p.x.raw as int) <= FX_UNIT,
        mag(p.y.raw as int) <= FX_UNIT,
        mag(p.z.raw as int) <= FX_UNIT,
        mag(shape.spec_onto_surface(p).x.raw as int) <= FX_UNIT,
        mag(shape.spec_onto_surface(p).y.raw as int) <= FX_UNIT,
        mag(shape.spec_onto_surface(p).z.raw as int) <= FX_UNIT,
{
    match shape {
        ColliderType::Sphere => {
            let len = p.spec_length();
            lemma_len3_small(p);
            if len.raw != 0 {
                lemma_div_le_unit(p.x, len);
                lemma_div_le_unit(p.y, len);
                lemma_div_le_unit(p.z, len);
            }
        },
        ColliderType::Cube => {
        },
        ColliderType::Cylinder => {
            let radial = V2 { x: p.x, y: p.z };
            let len = radial.spec_length();
            lemma_len2_small(radial);
            if len.raw != 0 {
                lemma_div_le_unit(p.x, len);
                lemma_div_le_unit(p.z, len);
            }
        },
    }
}

/// The collision queries agree with one another: a point outside a shape
/// has no displacement, and an inside point's displacement lands it
/// exactly on the shape's surface projection.
pub proof fn lemma_move_out_consistent(shape: ColliderType, p: V3)
    ensures
        !shape.spec_is_inside(p) ==> shape.spec_move_out(p) is None,
        shape.spec_is_inside(p) ==> shape.spec_move_out(p) == Some(
            shape.spec_onto_surface(p).spec_sub(p),
        ),
        shape.spec_is_inside(p) ==> p.spec_add(shape.spec_onto_surface(p).spec_sub(p))
            == shape.spec_onto_surface(p),
{
    if shape.spec_is_inside(p) {
        lemma_onto_bounded(shape, p);
    }
}

/// For a point whose clamped cube slacks have a strict minimum on one
/// axis, the cube projection snaps exactly that axis to its signed unit
/// and leaves the other two at their clamped values, strictly within the
/// face.
pub proof fn lemma_cube_snaps_one_axis(p: V3)
    requires
        ({
            let c = cube_clamped(p);
            let one = Fx { raw: FX_UNIT };
            let dx = one.spec_sub(c.x.spec_abs()).raw;
            let dy = one.spec_sub(c.y.spec_abs()).raw;
            let dz = one.spec_sub(c.z.spec_abs()).raw;
            (dx < dy && dx < dz) || (dy < dx && dy < dz) || (dz < dx && dz < dy)
        }),
    ensures
        ({
            let c = cube_clamped(p);
            let r = ColliderType::Cube.spec_onto_surface(p);
            (r.x.spec_abs().raw == FX_UNIT && r.y == c.y && r.z == c.z
                && r.y.spec_abs().raw < FX_UNIT && r.z.spec_abs().raw < FX_UNIT)
            || (r.y.spec_abs().raw == FX_UNIT && r.x == c.x && r.z == c.z
                && r.x.spec_abs().raw < FX_UNIT && r.z.spec_abs().raw < FX_UNIT)
            || (r.z.spec_abs().raw == FX_UNIT && r.x == c.x && r.y == c.y
                && r.x.spec_abs().raw < FX_UNIT && r.y.spec_abs().raw < FX_UNIT)
        }),
{
}

} // verus!
