use scene_engine::collision::ColliderType;
use scene_engine::fixed::Fx;
use scene_engine::geom::{Transform, V3};

fn fx(raw: i64) -> Fx {
    Fx::from_millionths(raw)
}

fn v(x: i64, y: i64, z: i64) -> V3 {
    V3::new(fx(x), fx(y), fx(z))
}

#[test]
fn on_surface() {
    assert_eq!(
        ColliderType::Cube.onto_surface(v(300000, 400000, -1500000)),
        v(300000, 400000, -1000000)
    );
    assert_eq!(
        ColliderType::Cube.onto_surface(v(-1100000, 1400000, 1500000)),
        v(-1000000, 1000000, 1000000)
    );
}

#[test]
fn cube_tie_leaves_point_clamped() {
    // Equal slack on x and y: no axis is snapped, the point is only
    // clamped.
    assert_eq!(
        ColliderType::Cube.onto_surface(v(500000, 500000, 0)),
        v(500000, 500000, 0)
    );
}

#[test]
fn sphere_projection_normalises() {
    assert_eq!(
        ColliderType::Sphere.onto_surface(v(500000, 0, 0)),
        v(1000000, 0, 0)
    );
    // The centre is a fixed point of the projection.
    assert_eq!(ColliderType::Sphere.onto_surface(v(0, 0, 0)), v(0, 0, 0));
}

#[test]
fn cylinder_side_projection() {
    assert_eq!(
        ColliderType::Cylinder.onto_surface(v(500000, 200000, 0)),
        v(1000000, 200000, 0)
    );
}

#[test]
fn cylinder_cap_projection() {
    // Close to the cap: y snaps to its sign, x stays within the circle.
    assert_eq!(
        ColliderType::Cylinder.onto_surface(v(200000, 900000, 0)),
        v(200000, 1000000, 0)
    );
}

#[test]
fn is_inside_each_shape() {
    assert!(ColliderType::Sphere.is_inside(v(0, 999999, 0)));
    assert!(!ColliderType::Sphere.is_inside(v(800000, 800000, 0)));
    assert!(ColliderType::Cube.is_inside(v(1000000, -1000000, 0)));
    assert!(!ColliderType::Cube.is_inside(v(0, 0, 1000001)));
    assert!(ColliderType::Cylinder.is_inside(v(600000, 1000000, 0)));
    assert!(!ColliderType::Cylinder.is_inside(v(600000, 1000001, 0)));
}

#[test]
fn move_out_agrees_with_is_inside() {
    let inside = v(500000, 0, 0);
    let outside = v(2000000, 0, 0);
    for shape in [
        ColliderType::Sphere,
        ColliderType::Cube,
        ColliderType::Cylinder,
    ] {
        assert!(shape.move_out(outside).is_none());
        let d = shape.move_out(inside).expect("inside point must move out");
        let landed = inside.add(d);
        assert_eq!(landed, shape.onto_surface(inside));
    }
}

#[test]
fn move_out_sphere_displacement() {
    assert_eq!(
        ColliderType::Sphere.move_out(v(500000, 0, 0)),
        Some(v(500000, 0, 0))
    );
}

#[test]
fn transformed_queries_use_the_inverse() {
    // A sphere shifted to x = 3: the world point (3, 0, 0) is its centre.
    let t = Transform::from_pos(v(3000000, 0, 0));
    assert!(ColliderType::Sphere.is_inside_transformed(v(3000000, 0, 0), t));
    assert!(!ColliderType::Sphere.is_inside_transformed(v(0, 0, 0), t));
    assert_eq!(
        ColliderType::Sphere.onto_surface_transformed(v(3500000, 0, 0), t),
        v(4000000, 0, 0)
    );
}

#[test]
fn move_out_of_overlapping_spheres() {
    let ta = Transform::identity();
    let tb = Transform::from_pos(v(1000000, 0, 0));
    let r = ColliderType::Sphere.move_out_of(ta, ColliderType::Sphere, tb);
    assert_eq!(r, Some(v(0, 0, 0)));
    assert!(ColliderType::Sphere.is_inside_of(ta, ColliderType::Sphere, tb));
}

#[test]
fn move_out_of_separated_spheres_is_none() {
    let ta = Transform::identity();
    let tb = Transform::from_pos(v(10000000, 0, 0));
    assert_eq!(
        ColliderType::Sphere.move_out_of(ta, ColliderType::Sphere, tb),
        None
    );
    assert!(!ColliderType::Sphere.is_inside_of(ta, ColliderType::Sphere, tb));
}
