use scene_engine::collision::ColliderType;
use scene_engine::fixed::Fx;
use scene_engine::geom::V3;
use scene_engine::player::PlayerData;

#[test]
fn three_stats_behind_nine_accessors() {
    let p = PlayerData::new(2, 4, 8);
    assert_eq!(p.recovery(), 2);
    assert_eq!(p.focus(), 2);
    assert_eq!(p.reasoning(), 2);
    assert_eq!(p.fitness(), 4);
    assert_eq!(p.speed(), 4);
    assert_eq!(p.strength(), 4);
    assert_eq!(p.charisma(), 8);
    assert_eq!(p.expression(), 8);
    assert_eq!(p.deception(), 8);
}

#[test]
fn tags_keep_duplicates_and_test_membership() {
    let mut p = PlayerData::new(1, 1, 1);
    assert!(!p.has_tag("seen"));
    p.add_tag("seen".to_string());
    p.add_tag("seen".to_string());
    assert!(p.has_tag("seen"));
    assert_eq!(p.acquired_tags.len(), 2);
}

#[test]
fn the_player_collides_as_a_cylinder_at_its_position() {
    let mut p = PlayerData::new(1, 1, 1);
    p.pos = V3::new(
        Fx::from_millionths(2000000),
        Fx::from_millionths(0),
        Fx::from_millionths(-1000000),
    );
    let (shape, trans) = p.collider();
    assert_eq!(shape, ColliderType::Cylinder);
    assert_eq!(trans.mat.m03.raw, 2000000);
    assert_eq!(trans.mat.m23.raw, -1000000);
    assert_eq!(trans.inv.m03.raw, -2000000);
}
