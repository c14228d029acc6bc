//! Vectors, quaternions and affine transform matrices in fixed point.
//!
//! Conventions follow the rendering stack this engine targets: matrices act
//! on column vectors (`M * v`), rotations are quaternions built from
//! half-angle sines and cosines, and converting a 4x4 transform to a 3x3 in
//! order to move a direction vector uses the transpose of the linear block.
use vstd::prelude::*;
use crate::fixed::{Fx, FX_UNIT, mag, mag_u64, sat, sat_from, sqrt_floor, isqrt,
    lemma_sqrt_floor};

verus! {

/// A point or direction in space.
#[derive(Clone, Copy, Debug, PartialEq, Eq, Structural)]
pub struct V3 {
    pub x: Fx,
    pub y: Fx,
    pub z: Fx,
}

/// A point or direction in a plane.
#[derive(Clone, Copy, Debug, PartialEq, Eq, Structural)]
pub struct V2 {
    pub x: Fx,
    pub y: Fx,
}

/// A rotation, `r` the scalar part and `i`, `j`, `k` the vector part.
#[derive(Clone, Copy, Debug, PartialEq, Eq, Structural)]
pub struct Quat {
    pub r: Fx,
    pub i: Fx,
    pub j: Fx,
    pub k: Fx,
}

/// A 4x4 matrix; `mRC` is the entry in row `R`, column `C`.
#[derive(Clone, Copy, Debug, PartialEq, Eq, Structural)]
pub struct M4 {
    pub m00: Fx, pub m01: Fx, pub m02: Fx, pub m03: Fx,
    pub m10: Fx, pub m11: Fx, pub m12: Fx, pub m13: Fx,
    pub m20: Fx, pub m21: Fx, pub m22: Fx, pub m23: Fx,
    pub m30: Fx, pub m31: Fx, pub m32: Fx, pub m33: Fx,
}

/// Dot product of two rows of four, summed left to right.
#[verifier::opaque]
pub open spec fn spec_dot4(a0: Fx, a1: Fx, a2: Fx, a3: Fx, b0: Fx, b1: Fx, b2: Fx, b3: Fx) -> Fx {
    a0.spec_mul(b0).spec_add(a1.spec_mul(b1)).spec_add(a2.spec_mul(b2)).spec_add(a3.spec_mul(b3))
}

fn dot4(a0: Fx, a1: Fx, a2: Fx, a3: Fx, b0: Fx, b1: Fx, b2: Fx, b3: Fx) -> (r: Fx)
    ensures
        r == spec_dot4(a0, a1, a2, a3, b0, b1, b2, b3),
{
    proof {
        reveal(spec_dot4);
    }
    a0.mul(b0).add(a1.mul(b1)).add(a2.mul(b2)).add(a3.mul(b3))
}

/// Sum of the squared raw components of a triple.
pub open spec fn raw_sq_sum3(x: Fx, y: Fx, z: Fx) -> int {
    x.raw * x.raw + y.raw * y.raw + z.raw * z.raw
}

/// Sum of the squared raw components of a pair.
pub open spec fn raw_sq_sum2(x: Fx, y: Fx) -> int {
    x.raw * x.raw + y.raw * y.raw
}

/// Fixed-point length from a raw squared length: the integer square root
/// of the raw sum is again in raw (millionths) scale.
pub open spec fn spec_len_of_sq(s: int) -> Fx
    recommends
        s >= 0,
{
    Fx { raw: sat(sqrt_floor(s as nat) as int) as i64 }
}

proof fn lemma_sq_mag(a: int)
    ensures
        mag(a) * mag(a) == a * a,
        a * a >= 0,
        a * a <= 0x8000000000000000 * 0x8000000000000000 || mag(a)
            > 0x8000000000000000,
{
    assert(mag(a) * mag(a) == a * a && a * a >= 0) by (nonlinear_arith);
    if mag(a) <= 0x8000000000000000 {
        assert(mag(a) * mag(a) <= 0x8000000000000000 * 0x8000000000000000)
            by (nonlinear_arith)
            requires
                0 <= mag(a) <= 0x8000000000000000,
        ;
    }
}

/// Square an `i64` exactly into a `u128`.
fn sq_u128(a: i64) -> (r: u128)
    ensures
        r == (a as int) * (a as int),
{
    let m = mag_u64(a);
    proof {
        lemma_sq_mag(a as int);
        assert((m as int) * (m as int) == mag(a as int) * mag(a as int));
    }
    (m as u128) * (m as u128)
}

impl V3 {
    pub open spec fn spec_add(self, o: V3) -> V3 {
        V3 { x: self.x.spec_add(o.x), y: self.y.spec_add(o.y), z: self.z.spec_add(o.z) }
    }

    pub open spec fn spec_sub(self, o: V3) -> V3 {
        V3 { x: self.x.spec_sub(o.x), y: self.y.spec_sub(o.y), z: self.z.spec_sub(o.z) }
    }

    pub open spec fn spec_neg(self) -> V3 {
        V3 { x: self.x.spec_neg(), y: self.y.spec_neg(), z: self.z.spec_neg() }
    }

    pub open spec fn spec_scale(self, k: Fx) -> V3 {
        V3 { x: self.x.spec_mul(k), y: self.y.spec_mul(k), z: self.z.spec_mul(k) }
    }

    pub open spec fn spec_length(self) -> Fx {
        spec_len_of_sq(raw_sq_sum3(self.x, self.y, self.z))
    }

    /// Scale the vector to length one; a zero vector stays zero.
    pub open spec fn spec_normalise(self) -> V3 {
        let len = self.spec_length();
        if len.raw == 0 {
            V3 { x: Fx { raw: 0 }, y: Fx { raw: 0 }, z: Fx { raw: 0 } }
        } else {
            V3 { x: self.x.spec_div(len), y: self.y.spec_div(len), z: self.z.spec_div(len) }
        }
    }

    pub open spec fn spec_distance(self, o: V3) -> Fx {
        self.spec_sub(o).spec_length()
    }

    pub fn new(x: Fx, y: Fx, z: Fx) -> (r: V3)
        ensures
            r == (V3 { x, y, z }),
    {
        V3 { x, y, z }
    }

    pub fn zero() -> (r: V3)
        ensures
            r == (V3 { x: Fx { raw: 0 }, y: Fx { raw: 0 }, z: Fx { raw: 0 } }),
    {
        V3 { x: Fx { raw: 0 }, y: Fx { raw: 0 }, z: Fx { raw: 0 } }
    }

    pub fn one() -> (r: V3)
        ensures
            r == (V3 { x: Fx { raw: FX_UNIT }, y: Fx { raw: FX_UNIT }, z: Fx { raw: FX_UNIT } }),
    {
        V3 { x: Fx { raw: FX_UNIT }, y: Fx { raw: FX_UNIT }, z: Fx { raw: FX_UNIT } }
    }

    /// The same value on all three axes.
    pub fn splat(v: Fx) -> (r: V3)
        ensures
            r == (V3 { x: v, y: v, z: v }),
    {
        V3 { x: v, y: v, z: v }
    }

    pub fn add(self, o: V3) -> (r: V3)
        ensures
            r == self.spec_add(o),
    {
        V3 { x: self.x.add(o.x), y: self.y.add(o.y), z: self.z.add(o.z) }
    }

    pub fn sub(self, o: V3) -> (r: V3)
        ensures
            r == self.spec_sub(o),
    {
        V3 { x: self.x.sub(o.x), y: self.y.sub(o.y), z: self.z.sub(o.z) }
    }

    pub fn neg(self) -> (r: V3)
        ensures
            r == self.spec_neg(),
    {
        V3 { x: self.x.neg(), y: self.y.neg(), z: self.z.neg() }
    }

    pub fn scale(self, k: Fx) -> (r: V3)
        ensures
            r == self.spec_scale(k),
    {
        V3 { x: self.x.mul(k), y: self.y.mul(k), z: self.z.mul(k) }
    }

    pub fn length(self) -> (r: Fx)
        ensures
            r == self.spec_length(),
    {
        let sx = sq_u128(self.x.raw);
        let sy = sq_u128(self.y.raw);
        let sz = sq_u128(self.z.raw);
        proof {
            lemma_sq_mag(self.x.raw as int);
            lemma_sq_mag(self.y.raw as int);
            lemma_sq_mag(self.z.raw as int);
        }
        let s: u128 = sx + sy + sz;
        let root = isqrt(s);
        let r = sat_from(false, root as u128);
        proof {
            lemma_sqrt_floor(s as nat);
        }
        r
    }

    pub fn normalise(self) -> (r: V3)
        ensures
            r == self.spec_normalise(),
    {
        let len = self.length();
        if len.raw == 0 {
            V3 { x: Fx { raw: 0 }, y: Fx { raw: 0 }, z: Fx { raw: 0 } }
        } else {
            V3 { x: self.x.div(len), y: self.y.div(len), z: self.z.div(len) }
        }
    }

    pub fn distance(self, o: V3) -> (r: Fx)
        ensures
            r == self.spec_distance(o),
    {
        self.sub(o).length()
    }
}

impl V2 {
    pub open spec fn spec_length(self) -> Fx {
        spec_len_of_sq(raw_sq_sum2(self.x, self.y))
    }

    /// Scale the vector to length one; a zero vector stays zero.
    pub open spec fn spec_normalise(self) -> V2 {
        let len = self.spec_length();
        if len.raw == 0 {
            V2 { x: Fx { raw: 0 }, y: Fx { raw: 0 } }
        } else {
            V2 { x: self.x.spec_div(len), y: self.y.spec_div(len) }
        }
    }

    pub fn new(x: Fx, y: Fx) -> (r: V2)
        ensures
            r == (V2 { x, y }),
    {
        V2 { x, y }
    }

    pub fn length(self) -> (r: Fx)
        ensures
            r == self.spec_length(),
    {
        let sx = sq_u128(self.x.raw);
        let sy = sq_u128(self.y.raw);
        proof {
            lemma_sq_mag(self.x.raw as int);
            lemma_sq_mag(self.y.raw as int);
        }
        let s: u128 = sx + sy;
        let root = isqrt(s);
        let r = sat_from(false, root as u128);
        proof {
            lemma_sqrt_floor(s as nat);
        }
        r
    }

    pub fn normalise(self) -> (r: V2)
        ensures
            r == self.spec_normalise(),
    {
        let len = self.length();
        if len.raw == 0 {
            V2 { x: Fx { raw: 0 }, y: Fx { raw: 0 } }
        } else {
            V2 { x: self.x.div(len), y: self.y.div(len) }
        }
    }
}

impl Quat {
    /// The product follows the usual composition rule for rotations.
    #[verifier::opaque]
    pub open spec fn spec_mul(self, o: Quat) -> Quat {
        Quat {
            r: self.r.spec_mul(o.r).spec_sub(self.i.spec_mul(o.i)).spec_sub(
                self.j.spec_mul(o.j)).spec_sub(self.k.spec_mul(o.k)),
            i: self.r.spec_mul(o.i).spec_add(self.i.spec_mul(o.r)).spec_add(
                self.j.spec_mul(o.k)).spec_sub(self.k.spec_mul(o.j)),
            j: self.r.spec_mul(o.j).spec_sub(self.i.spec_mul(o.k)).spec_add(
                self.j.spec_mul(o.r)).spec_add(self.k.spec_mul(o.i)),
            k: self.r.spec_mul(o.k).spec_add(self.i.spec_mul(o.j)).spec_sub(
                self.j.spec_mul(o.i)).spec_add(self.k.spec_mul(o.r)),
        }
    }

    /// Rotation about the x axis by `angle` radians.
    pub open spec fn spec_from_x_rot(angle: Fx) -> Quat {
        let a = angle.spec_div(Fx { raw: 2000000 });
        Quat { r: a.spec_cos(), i: a.spec_sin(), j: Fx { raw: 0 }, k: Fx { raw: 0 } }
    }

    /// Rotation about the y axis by `angle` radians.
    pub open spec fn spec_from_y_rot(angle: Fx) -> Quat {
        let a = angle.spec_div(Fx { raw: 2000000 });
        Quat { r: a.spec_cos(), i: Fx { raw: 0 }, j: a.spec_sin(), k: Fx { raw: 0 } }
    }

    /// Rotation about the z axis by `angle` radians.
    pub open spec fn spec_from_z_rot(angle: Fx) -> Quat {
        let a = angle.spec_div(Fx { raw: 2000000 });
        Quat { r: a.spec_cos(), i: Fx { raw: 0 }, j: Fx { raw: 0 }, k: a.spec_sin() }
    }

    /// Rotation built from Euler angles in the object order: x, then y,
    /// then z.
    pub open spec fn spec_from_euler_object(rot: V3) -> Quat {
        Quat::spec_from_x_rot(rot.x).spec_mul(Quat::spec_from_y_rot(rot.y)).spec_mul(
            Quat::spec_from_z_rot(rot.z))
    }

    /// Rotation built from Euler angles in the camera order: y, then x,
    /// then z.
    pub open spec fn spec_from_euler_camera(rot: V3) -> Quat {
        Quat::spec_from_y_rot(rot.y).spec_mul(Quat::spec_from_x_rot(rot.x)).spec_mul(
            Quat::spec_from_z_rot(rot.z))
    }

    pub fn mul(self, o: Quat) -> (r: Quat)
        ensures
            r == self.spec_mul(o),
    {
        proof {
            reveal(Quat::spec_mul);
        }
        Quat {
            r: self.r.mul(o.r).sub(self.i.mul(o.i)).sub(self.j.mul(o.j)).sub(self.k.mul(o.k)),
            i: self.r.mul(o.i).add(self.i.mul(o.r)).add(self.j.mul(o.k)).sub(self.k.mul(o.j)),
            j: self.r.mul(o.j).sub(self.i.mul(o.k)).add(self.j.mul(o.r)).add(self.k.mul(o.i)),
            k: self.r.mul(o.k).add(self.i.mul(o.j)).sub(self.j.mul(o.i)).add(self.k.mul(o.r)),
        }
    }

    pub fn from_x_rot(angle: Fx) -> (r: Quat)
        ensures
            r == Quat::spec_from_x_rot(angle),
    {
        let a = angle.div(Fx { raw: 2000000 });
        Quat { r: a.cos(), i: a.sin(), j: Fx { raw: 0 }, k: Fx { raw: 0 } }
    }

    pub fn from_y_rot(angle: Fx) -> (r: Quat)
        ensures
            r == Quat::spec_from_y_rot(angle),
    {
        let a = angle.div(Fx { raw: 2000000 });
        Quat { r: a.cos(), i: Fx { raw: 0 }, j: a.sin(), k: Fx { raw: 0 } }
    }

    pub fn from_z_rot(angle: Fx) -> (r: Quat)
        ensures
            r == Quat::spec_from_z_rot(angle),
    {
        let a = angle.div(Fx { raw: 2000000 });
        Quat { r: a.cos(), i: Fx { raw: 0 }, j: Fx { raw: 0 }, k: a.sin() }
    }

    pub fn from_euler_object(rot: V3) -> (r: Quat)
        ensures
            r == Quat::spec_from_euler_object(rot),
    {
        Quat::from_x_rot(rot.x).mul(Quat::from_y_rot(rot.y)).mul(Quat::from_z_rot(rot.z))
    }

    pub fn from_euler_camera(rot: V3) -> (r: Quat)
        ensures
            r == Quat::spec_from_euler_camera(rot),
    {
        Quat::from_y_rot(rot.y).mul(Quat::from_x_rot(rot.x)).mul(Quat::from_z_rot(rot.z))
    }
}

impl M4 {
    pub open spec fn spec_identity() -> M4 {
        M4 {
            m00: Fx { raw: FX_UNIT }, m01: Fx { raw: 0 }, m02: Fx { raw: 0 }, m03: Fx { raw: 0 },
            m10: Fx { raw: 0 }, m11: Fx { raw: FX_UNIT }, m12: Fx { raw: 0 }, m13: Fx { raw: 0 },
            m20: Fx { raw: 0 }, m21: Fx { raw: 0 }, m22: Fx { raw: FX_UNIT }, m23: Fx { raw: 0 },
            m30: Fx { raw: 0 }, m31: Fx { raw: 0 }, m32: Fx { raw: 0 }, m33: Fx { raw: FX_UNIT },
        }
    }

    #[verifier::opaque]
    pub open spec fn spec_mul(self, o: M4) -> M4 {
        M4 {
            m00: spec_dot4(self.m00, self.m01, self.m02, self.m03, o.m00, o.m10, o.m20, o.m30),
            m01: spec_dot4(self.m00, self.m01, self.m02, self.m03, o.m01, o.m11, o.m21, o.m31),
            m02: spec_dot4(self.m00, self.m01, self.m02, self.m03, o.m02, o.m12, o.m22, o.m32),
            m03: spec_dot4(self.m00, self.m01, self.m02, self.m03, o.m03, o.m13, o.m23, o.m33),
            m10: spec_dot4(self.m10, self.m11, self.m12, self.m13, o.m00, o.m10, o.m20, o.m30),
            m11: spec_dot4(self.m10, self.m11, self.m12, self.m13, o.m01, o.m11, o.m21, o.m31),
            m12: spec_dot4(self.m10, self.m11, self.m12, self.m13, o.m02, o.m12, o.m22, o.m32),
            m13: spec_dot4(self.m10, self.m11, self.m12, self.m13, o.m03, o.m13, o.m23, o.m33),
            m20: spec_dot4(self.m20, self.m21, self.m22, self.m23, o.m00, o.m10, o.m20, o.m30),
            m21: spec_dot4(self.m20, self.m21, self.m22, self.m23, o.m01, o.m11, o.m21, o.m31),
            m22: spec_dot4(self.m20, self.m21, self.m22, self.m23, o.m02, o.m12, o.m22, o.m32),
            m23: spec_dot4(self.m20, self.m21, self.m22, self.m23, o.m03, o.m13, o.m23, o.m33),
            m30: spec_dot4(self.m30, self.m31, self.m32, self.m33, o.m00, o.m10, o.m20, o.m30),
            m31: spec_dot4(self.m30, self.m31, self.m32, self.m33, o.m01, o.m11, o.m21, o.m31),
            m32: spec_dot4(self.m30, self.m31, self.m32, self.m33, o.m02, o.m12, o.m22, o.m32),
            m33: spec_dot4(self.m30, self.m31, self.m32, self.m33, o.m03, o.m13, o.m23, o.m33),
        }
    }

    /// Apply to a point: the affine action on `(x, y, z, 1)`.
    #[verifier::opaque]
    pub open spec fn spec_apply_point(self, p: V3) -> V3 {
        let one = Fx { raw: FX_UNIT };
        V3 {
            x: spec_dot4(self.m00, self.m01, self.m02, self.m03, p.x, p.y, p.z, one),
            y: spec_dot4(self.m10, self.m11, self.m12, self.m13, p.x, p.y, p.z, one),
            z: spec_dot4(self.m20, self.m21, self.m22, self.m23, p.x, p.y, p.z, one),
        }
    }

    /// Apply to a direction: the transpose of the linear block acting on
    /// `(x, y, z)`, which is how the engine convention converts a 4x4 to a
    /// 3x3 when moving displacement vectors.
    #[verifier::opaque]
    pub open spec fn spec_apply_dir(self, p: V3) -> V3 {
        let zero = Fx { raw: 0 };
        V3 {
            x: spec_dot4(self.m00, self.m10, self.m20, zero, p.x, p.y, p.z, zero),
            y: spec_dot4(self.m01, self.m11, self.m21, zero, p.x, p.y, p.z, zero),
            z: spec_dot4(self.m02, self.m12, self.m22, zero, p.x, p.y, p.z, zero),
        }
    }

    /// The translation column: the image of the origin.
    pub open spec fn spec_origin(self) -> V3 {
        self.spec_apply_point(V3 { x: Fx { raw: 0 }, y: Fx { raw: 0 }, z: Fx { raw: 0 } })
    }

    /// Transform assembled from position, scale and rotation, equal to
    /// translation * rotation * scale.
    #[verifier::opaque]
    pub open spec fn spec_from_transform(pos: V3, scale: V3, rot: Quat) -> M4 {
        let half = Fx { raw: 500000 };
        let two = Fx { raw: 2000000 };
        let r = rot.r;
        let i = rot.i;
        let j = rot.j;
        let k = rot.k;
        let sx = scale.x.spec_mul(two);
        let sy = scale.y.spec_mul(two);
        let sz = scale.z.spec_mul(two);
        M4 {
            m00: sx.spec_mul(half.spec_sub(j.spec_mul(j).spec_add(k.spec_mul(k)))),
            m01: sy.spec_mul(i.spec_mul(j).spec_sub(k.spec_mul(r))),
            m02: sz.spec_mul(i.spec_mul(k).spec_add(j.spec_mul(r))),
            m03: pos.x,
            m10: sx.spec_mul(i.spec_mul(j).spec_add(k.spec_mul(r))),
            m11: sy.spec_mul(half.spec_sub(i.spec_mul(i).spec_add(k.spec_mul(k)))),
            m12: sz.spec_mul(j.spec_mul(k).spec_sub(i.spec_mul(r))),
            m13: pos.y,
            m20: sx.spec_mul(i.spec_mul(k).spec_sub(j.spec_mul(r))),
            m21: sy.spec_mul(j.spec_mul(k).spec_add(i.spec_mul(r))),
            m22: sz.spec_mul(half.spec_sub(i.spec_mul(i).spec_add(j.spec_mul(j)))),
            m23: pos.z,
            m30: Fx { raw: 0 },
            m31: Fx { raw: 0 },
            m32: Fx { raw: 0 },
            m33: Fx { raw: FX_UNIT },
        }
    }

    /// The inverse of `spec_from_transform` on the same arguments, built
    /// directly from the reciprocal scale and the opposite rotation.
    #[verifier::opaque]
    pub open spec fn spec_from_inverse_transform(pos: V3, scale: V3, rot: Quat) -> M4 {
        let one = Fx { raw: FX_UNIT };
        let two = Fx { raw: 2000000 };
        let qr = rot.r;
        let qi = rot.i;
        let qj = rot.j;
        let qk = rot.k;
        let x = one.spec_div(scale.x);
        let y = one.spec_div(scale.y);
        let z = one.spec_div(scale.z);
        let scalar = qr.spec_mul(qr).spec_add(qi.spec_mul(qi)).spec_add(
            qj.spec_mul(qj)).spec_add(qk.spec_mul(qk));
        let s = two.spec_div(scalar.spec_mul(scalar));
        let sx = s.spec_mul(x);
        let sy = s.spec_mul(y);
        let sz = s.spec_mul(z);
        let a = x.spec_sub(sx.spec_mul(qj.spec_mul(qj).spec_add(qk.spec_mul(qk))));
        let b = sx.spec_mul(qi.spec_mul(qj).spec_add(qk.spec_mul(qr)));
        let c = sx.spec_mul(qi.spec_mul(qk).spec_sub(qj.spec_mul(qr)));
        let d = sy.spec_mul(qi.spec_mul(qj).spec_sub(qk.spec_mul(qr)));
        let e = y.spec_sub(sy.spec_mul(qi.spec_mul(qi).spec_add(qk.spec_mul(qk))));
        let f = sy.spec_mul(qj.spec_mul(qk).spec_add(qi.spec_mul(qr)));
        let g = sz.spec_mul(qi.spec_mul(qk).spec_add(qj.spec_mul(qr)));
        let h = sz.spec_mul(qj.spec_mul(qk).spec_sub(qi.spec_mul(qr)));
        let w = z.spec_sub(sz.spec_mul(qi.spec_mul(qi).spec_add(qj.spec_mul(qj))));
        M4 {
            m00: a,
            m01: b,
            m02: c,
            m03: a.spec_mul(pos.x).spec_neg().spec_sub(b.spec_mul(pos.y)).spec_sub(
                c.spec_mul(pos.z)),
            m10: d,
            m11: e,
            m12: f,
            m13: d.spec_mul(pos.x).spec_neg().spec_sub(e.spec_mul(pos.y)).spec_sub(
                f.spec_mul(pos.z)),
            m20: g,
            m21: h,
            m22: w,
            m23: g.spec_mul(pos.x).spec_neg().spec_sub(h.spec_mul(pos.y)).spec_sub(
                w.spec_mul(pos.z)),
            m30: Fx { raw: 0 },
            m31: Fx { raw: 0 },
            m32: Fx { raw: 0 },
            m33: Fx { raw: FX_UNIT },
        }
    }

    /// A pure translation.
    pub open spec fn spec_from_pos(pos: V3) -> M4 {
        M4 {
            m00: Fx { raw: FX_UNIT }, m01: Fx { raw: 0 }, m02: Fx { raw: 0 }, m03: pos.x,
            m10: Fx { raw: 0 }, m11: Fx { raw: FX_UNIT }, m12: Fx { raw: 0 }, m13: pos.y,
            m20: Fx { raw: 0 }, m21: Fx { raw: 0 }, m22: Fx { raw: FX_UNIT }, m23: pos.z,
            m30: Fx { raw: 0 }, m31: Fx { raw: 0 }, m32: Fx { raw: 0 }, m33: Fx { raw: FX_UNIT },
        }
    }

    pub fn identity() -> (r: M4)
        ensures
            r == M4::spec_identity(),
    {
        M4 {
            m00: Fx { raw: FX_UNIT }, m01: Fx { raw: 0 }, m02: Fx { raw: 0 }, m03: Fx { raw: 0 },
            m10: Fx { raw: 0 }, m11: Fx { raw: FX_UNIT }, m12: Fx { raw: 0 }, m13: Fx { raw: 0 },
            m20: Fx { raw: 0 }, m21: Fx { raw: 0 }, m22: Fx { raw: FX_UNIT }, m23: Fx { raw: 0 },
            m30: Fx { raw: 0 }, m31: Fx { raw: 0 }, m32: Fx { raw: 0 }, m33: Fx { raw: FX_UNIT },
        }
    }

    pub fn mul(self, o: M4) -> (r: M4)
        ensures
            r == self.spec_mul(o),
    {
        proof {
            reveal(M4::spec_mul);
        }
        M4 {
            m00: dot4(self.m00, self.m01, self.m02, self.m03, o.m00, o.m10, o.m20, o.m30),
            m01: dot4(self.m00, self.m01, self.m02, self.m03, o.m01, o.m11, o.m21, o.m31),
            m02: dot4(self.m00, self.m01, self.m02, self.m03, o.m02, o.m12, o.m22, o.m32),
            m03: dot4(self.m00, self.m01, self.m02, self.m03, o.m03, o.m13, o.m23, o.m33),
            m10: dot4(self.m10, self.m11, self.m12, self.m13, o.m00, o.m10, o.m20, o.m30),
            m11: dot4(self.m10, self.m11, self.m12, self.m13, o.m01, o.m11, o.m21, o.m31),
            m12: dot4(self.m10, self.m11, self.m12, self.m13, o.m02, o.m12, o.m22, o.m32),
            m13: dot4(self.m10, self.m11, self.m12, self.m13, o.m03, o.m13, o.m23, o.m33),
            m20: dot4(self.m20, self.m21, self.m22, self.m23, o.m00, o.m10, o.m20, o.m30),
            m21: dot4(self.m20, self.m21, self.m22, self.m23, o.m01, o.m11, o.m21, o.m31),
            m22: dot4(self.m20, self.m21, self.m22, self.m23, o.m02, o.m12, o.m22, o.m32),
            m23: dot4(self.m20, self.m21, self.m22, self.m23, o.m03, o.m13, o.m23, o.m33),
            m30: dot4(self.m30, self.m31, self.m32, self.m33, o.m00, o.m10, o.m20, o.m30),
            m31: dot4(self.m30, self.m31, self.m32, self.m33, o.m01, o.m11, o.m21, o.m31),
            m32: dot4(self.m30, self.m31, self.m32, self.m33, o.m02, o.m12, o.m22, o.m32),
            m33: dot4(self.m30, self.m31, self.m32, self.m33, o.m03, o.m13, o.m23, o.m33),
        }
    }

    pub fn apply_point(self, p: V3) -> (r: V3)
        ensures
            r == self.spec_apply_point(p),
    {
        proof {
            reveal(M4::spec_apply_point);
        }
        let one = Fx { raw: FX_UNIT };
        V3 {
            x: dot4(self.m00, self.m01, self.m02, self.m03, p.x, p.y, p.z, one),
            y: dot4(self.m10, self.m11, self.m12, self.m13, p.x, p.y, p.z, one),
            z: dot4(self.m20, self.m21, self.m22, self.m23, p.x, p.y, p.z, one),
        }
    }

    pub fn apply_dir(self, p: V3) -> (r: V3)
        ensures
            r == self.spec_apply_dir(p),
    {
        proof {
            reveal(M4::spec_apply_dir);
        }
        let zero = Fx { raw: 0 };
        V3 {
            x: dot4(self.m00, self.m10, self.m20, zero, p.x, p.y, p.z, zero),
            y: dot4(self.m01, self.m11, self.m21, zero, p.x, p.y, p.z, zero),
            z: dot4(self.m02, self.m12, self.m22, zero, p.x, p.y, p.z, zero),
        }
    }

    pub fn origin(self) -> (r: V3)
        ensures
            r == self.spec_origin(),
    {
        self.apply_point(V3 { x: Fx { raw: 0 }, y: Fx { raw: 0 }, z: Fx { raw: 0 } })
    }

    pub fn from_transform(pos: V3, scale: V3, rot: Quat) -> (m: M4)
        ensures
            m == M4::spec_from_transform(pos, scale, rot),
    {
        proof {
            reveal(M4::spec_from_transform);
        }
        let half = Fx { raw: 500000 };
        let two = Fx { raw: 2000000 };
        let r = rot.r;
        let i = rot.i;
        let j = rot.j;
        let k = rot.k;
        let sx = scale.x.mul(two);
        let sy = scale.y.mul(two);
        let sz = scale.z.mul(two);
        M4 {
            m00: sx.mul(half.sub(j.mul(j).add(k.mul(k)))),
            m01: sy.mul(i.mul(j).sub(k.mul(r))),
            m02: sz.mul(i.mul(k).add(j.mul(r))),
            m03: pos.x,
            m10: sx.mul(i.mul(j).add(k.mul(r))),
            m11: sy.mul(half.sub(i.mul(i).add(k.mul(k)))),
            m12: sz.mul(j.mul(k).sub(i.mul(r))),
            m13: pos.y,
            m20: sx.mul(i.mul(k).sub(j.mul(r))),
            m21: sy.mul(j.mul(k).add(i.mul(r))),
            m22: sz.mul(half.sub(i.mul(i).add(j.mul(j)))),
            m23: pos.z,
            m30: Fx { raw: 0 },
            m31: Fx { raw: 0 },
            m32: Fx { raw: 0 },
            m33: Fx { raw: FX_UNIT },
        }
    }

    pub fn from_inverse_transform(pos: V3, scale: V3, rot: Quat) -> (m: M4)
        ensures
            m == M4::spec_from_inverse_transform(pos, scale, rot),
    {
        proof {
            reveal(M4::spec_from_inverse_transform);
        }
        let one = Fx { raw: FX_UNIT };
        let two = Fx { raw: 2000000 };
        let qr = rot.r;
        let qi = rot.i;
        let qj = rot.j;
        let qk = rot.k;
        let x = one.div(scale.x);
        let y = one.div(scale.y);
        let z = one.div(scale.z);
        let scalar = qr.mul(qr).add(qi.mul(qi)).add(qj.mul(qj)).add(qk.mul(qk));
        let s = two.div(scalar.mul(scalar));
        let sx = s.mul(x);
        let sy = s.mul(y);
        let sz = s.mul(z);
        let a = x.sub(sx.mul(qj.mul(qj).add(qk.mul(qk))));
        let b = sx.mul(qi.mul(qj).add(qk.mul(qr)));
        let c = sx.mul(qi.mul(qk).sub(qj.mul(qr)));
        let d = sy.mul(qi.mul(qj).sub(qk.mul(qr)));
        let e = y.sub(sy.mul(qi.mul(qi).add(qk.mul(qk))));
        let f = sy.mul(qj.mul(qk).add(qi.mul(qr)));
        let g = sz.mul(qi.mul(qk).add(qj.mul(qr)));
        let h = sz.mul(qj.mul(qk).sub(qi.mul(qr)));
        let w = z.sub(sz.mul(qi.mul(qi).add(qj.mul(qj))));
        M4 {
            m00: a,
            m01: b,
            m02: c,
            m03: a.mul(pos.x).neg().sub(b.mul(pos.y)).sub(c.mul(pos.z)),
            m10: d,
            m11: e,
            m12: f,
            m13: d.mul(pos.x).neg().sub(e.mul(pos.y)).sub(f.mul(pos.z)),
            m20: g,
            m21: h,
            m22: w,
            m23: g.mul(pos.x).neg().sub(h.mul(pos.y)).sub(w.mul(pos.z)),
            m30: Fx { raw: 0 },
            m31: Fx { raw: 0 },
            m32: Fx { raw: 0 },
            m33: Fx { raw: FX_UNIT },
        }
    }

    pub fn from_pos(pos: V3) -> (m: M4)
        ensures
            m == M4::spec_from_pos(pos),
    {
        M4 {
            m00: Fx { raw: FX_UNIT }, m01: Fx { raw: 0 }, m02: Fx { raw: 0 }, m03: pos.x,
            m10: Fx { raw: 0 }, m11: Fx { raw: FX_UNIT }, m12: Fx { raw: 0 }, m13: pos.y,
            m20: Fx { raw: 0 }, m21: Fx { raw: 0 }, m22: Fx { raw: FX_UNIT }, m23: pos.z,
            m30: Fx { raw: 0 }, m31: Fx { raw: 0 }, m32: Fx { raw: 0 }, m33: Fx { raw: FX_UNIT },
        }
    }
}

/// A transform together with its inverse, kept in step so that collision
/// queries can map points both into and out of a body's local space.
/// Because the entries are fixed point, `inv` is the exact inverse of the
/// construction arguments, not of the rounded `mat`.
#[derive(Clone, Copy, Debug, PartialEq, Eq, Structural)]
pub struct Transform {
    pub mat: M4,
    pub inv: M4,
}

impl Transform {
    pub open spec fn spec_identity() -> Transform {
        Transform { mat: M4::spec_identity(), inv: M4::spec_identity() }
    }

    /// Compose with a child transform: matrices multiply in order, the
    /// inverses in the opposite order.
    pub open spec fn spec_compose(self, child: Transform) -> Transform {
        Transform { mat: self.mat.spec_mul(child.mat), inv: child.inv.spec_mul(self.inv) }
    }

    pub open spec fn spec_from_parts(pos: V3, scale: V3, rot: Quat) -> Transform {
        Transform {
            mat: M4::spec_from_transform(pos, scale, rot),
            inv: M4::spec_from_inverse_transform(pos, scale, rot),
        }
    }

    /// The camera convention: the stored matrix is the inverse one.
    pub open spec fn spec_camera_from_parts(pos: V3, scale: V3, rot: Quat) -> Transform {
        Transform {
            mat: M4::spec_from_inverse_transform(pos, scale, rot),
            inv: M4::spec_from_transform(pos, scale, rot),
        }
    }

    pub open spec fn spec_from_pos(pos: V3) -> Transform {
        Transform { mat: M4::spec_from_pos(pos), inv: M4::spec_from_pos(pos.spec_neg()) }
    }

    pub fn identity() -> (r: Transform)
        ensures
            r == Transform::spec_identity(),
    {
        Transform { mat: M4::identity(), inv: M4::identity() }
    }

    pub fn compose(self, child: Transform) -> (r: Transform)
        ensures
            r == self.spec_compose(child),
    {
        Transform { mat: self.mat.mul(child.mat), inv: child.inv.mul(self.inv) }
    }

    pub fn from_parts(pos: V3, scale: V3, rot: Quat) -> (r: Transform)
        ensures
            r == Transform::spec_from_parts(pos, scale, rot),
    {
        Transform {
            mat: M4::from_transform(pos, scale, rot),
            inv: M4::from_inverse_transform(pos, scale, rot),
        }
    }

    pub fn camera_from_parts(pos: V3, scale: V3, rot: Quat) -> (r: Transform)
        ensures
            r == Transform::spec_camera_from_parts(pos, scale, rot),
    {
        Transform {
            mat: M4::from_inverse_transform(pos, scale, rot),
            inv: M4::from_transform(pos, scale, rot),
        }
    }

    pub fn from_pos(pos: V3) -> (r: Transform)
        ensures
            r == Transform::spec_from_pos(pos),
    {
        Transform { mat: M4::from_pos(pos), inv: M4::from_pos(pos.neg()) }
    }
}

} // verus!
