use scene_engine::collision::ColliderType;
use scene_engine::player::PlayerData;
use scene_engine::parse::ParseErr;
use scene_engine::scenes::{DebugOptions, DrawInfo, GameScenes, Object, ObjectType, Scene};

fn player() -> PlayerData {
    PlayerData::new(1, 1, 1)
}

const DEBUG_OFF: DebugOptions = DebugOptions {
    trace_parsing: false,
    show_colliders: false,
    show_lights: false,
};

#[test]
fn scene_file_with_two_scenes() {
    let text = "#main[camera[pos[0,0,5]], collider[cube], exit[other, spawn, trigger[sphere]]],\n#other[camera[]]";
    let scenes = GameScenes::from_str(text).unwrap();
    assert_eq!(scenes.len(), 2);
    assert_eq!(scenes.scene(0).name, "main");
    assert_eq!(scenes.scene(1).name, "other");
    assert_eq!(scenes.get_index("other"), 1);
}

#[test]
fn a_later_scene_shadows_an_earlier_name() {
    let scenes = GameScenes::from_str("#a[camera[]], #a[camera[]]").unwrap();
    assert_eq!(scenes.get_index("a"), 1);
}

#[test]
fn traversal_orders_children_before_wrappers() {
    let text = "#main[camera[], collider[cube], exit[other, spawn, trigger[sphere]]]";
    let scene = Scene::from_str(text).unwrap();
    let all = scene.all_objects();
    assert_eq!(all.len(), 3);
    assert!(matches!(all[0].0.object_type, ObjectType::Collider { .. }));
    assert!(matches!(all[1].0.object_type, ObjectType::Trigger { .. }));
    assert!(matches!(all[2].0.object_type, ObjectType::Exit { .. }));
    let p = player();
    assert_eq!(scene.colliders(&p).len(), 1);
    assert_eq!(scene.colliders(&p)[0].0, ColliderType::Cube);
    assert_eq!(scene.exits(&p).len(), 1);
}

#[test]
fn if_gates_its_subtree_but_not_itself() {
    let text = "#s[camera[], if[never, mesh[a.obj, b.png]]]";
    let scene = Scene::from_str(text).unwrap();
    let p = player();
    assert_eq!(scene.all_objects().len(), 2);
    assert_eq!(scene.all_valid_objects(&p).len(), 1);
    assert_eq!(scene.draw_info(&p, &DEBUG_OFF).len(), 0);
    let mut q = player();
    q.add_tag("never".to_string());
    assert_eq!(scene.all_valid_objects(&q).len(), 2);
    assert_eq!(scene.draw_info(&q, &DEBUG_OFF).len(), 1);
}

#[test]
fn asset_path_queries() {
    let text = "#s[camera[], mesh[a.obj, a.png], image[splash.png], dialogue[intro.txt, trigger[cube]]]";
    let scene = Scene::from_str(text).unwrap();
    assert_eq!(scene.mesh_paths(), vec!["a.obj"]);
    assert_eq!(scene.image_paths(), vec!["a.png", "splash.png"]);
    assert_eq!(scene.script_paths(), vec!["intro.txt"]);
    assert_eq!(scene.dialogue(&player()).len(), 1);
}

#[test]
fn draw_info_lists_meshes_and_debug_markers() {
    let text = "#s[camera[], mesh[a.obj, a.png], collider[cube], trigger[sphere]]";
    let scene = Scene::from_str(text).unwrap();
    let p = player();
    let plain = scene.draw_info(&p, &DEBUG_OFF);
    assert_eq!(plain.len(), 1);
    assert_eq!(
        plain[0].0,
        DrawInfo::Mesh("a.obj".to_string(), "a.png".to_string())
    );
    let dbg = DebugOptions {
        trace_parsing: false,
        show_colliders: true,
        show_lights: false,
    };
    let marked = scene.draw_info(&p, &dbg);
    assert_eq!(marked.len(), 3);
    assert_eq!(marked[1].0, DrawInfo::DebugCube);
    assert_eq!(marked[2].0, DrawInfo::DebugSphere);
}

#[test]
fn transforms_parse_in_any_argument_position() {
    let o = Object::from_str("mesh#it[a.obj, pos[1,2,3], b.png, scale[2]]").unwrap();
    assert_eq!(o.name, "it");
    assert_eq!(o.pos.x.raw, 1000000);
    assert_eq!(o.pos.y.raw, 2000000);
    assert_eq!(o.pos.z.raw, 3000000);
    assert_eq!(o.scale.x.raw, 2000000);
    assert_eq!(o.scale.z.raw, 2000000);
    // The transform's translation column carries the position.
    assert_eq!(o.trans.mat.m03.raw, 1000000);
    assert_eq!(o.trans.mat.m13.raw, 2000000);
    assert_eq!(o.trans.mat.m23.raw, 3000000);
    match o.object_type {
        ObjectType::Mesh {
            mesh_path,
            image_path,
        } => {
            assert_eq!(mesh_path, "a.obj");
            assert_eq!(image_path, "b.png");
        }
        _ => panic!("expected a mesh"),
    }
}

#[test]
fn rotation_is_read_in_degrees() {
    let o = Object::from_str("collider[cube, rot[90,0,0]]").unwrap();
    // 90 degrees in radian millionths under the fixed conversion factor.
    assert_eq!(o.rot.x.raw, 90 * 17453);
    assert_eq!(o.rot.y.raw, 0);
}

#[test]
fn zero_rotation_gives_an_exact_identity_block() {
    let o = Object::from_str("collider[cube]").unwrap();
    assert_eq!(o.trans.mat.m00.raw, 1000000);
    assert_eq!(o.trans.mat.m11.raw, 1000000);
    assert_eq!(o.trans.mat.m22.raw, 1000000);
    assert_eq!(o.trans.mat.m01.raw, 0);
    assert_eq!(o.trans.mat.m10.raw, 0);
}

#[test]
fn colour_components_scale_to_unit_range() {
    let o = Object::from_str("point_light[2, colour[255, 0, 51]]").unwrap();
    match o.object_type {
        ObjectType::PointLight { strength, colour } => {
            assert_eq!(strength.raw, 2000000);
            assert_eq!(colour.x.raw, 1000000);
            assert_eq!(colour.y.raw, 0);
            assert_eq!(colour.z.raw, 200000);
        }
        _ => panic!("expected a point light"),
    }
}

#[test]
fn arity_and_vocabulary_errors() {
    assert_eq!(
        Object::from_str("collider[]").unwrap_err(),
        ParseErr::NotEnoughArgs
    );
    assert_eq!(
        Object::from_str("collider[cube, extra]").unwrap_err(),
        ParseErr::ToManyArgs
    );
    assert_eq!(
        Object::from_str("collider[pyramid]").unwrap_err(),
        ParseErr::InvalidColliderType("pyramid".to_string())
    );
    assert_eq!(
        Object::from_str("widget[x]").unwrap_err(),
        ParseErr::InvalidPrefix("widget".to_string())
    );
    assert_eq!(
        Object::from_str("mesh a.obj"). unwrap_err(),
        ParseErr::NoOpenBracket
    );
    assert_eq!(
        Object::from_str("mesh[a.obj, b.png]x").unwrap_err(),
        ParseErr::EarlyCloseBracket
    );
}

#[test]
fn groups_hold_any_number_of_objects() {
    let o = Object::from_str("[collider[cube], trigger[sphere]]").unwrap();
    match &o.object_type {
        ObjectType::Group { objects } => assert_eq!(objects.len(), 2),
        _ => panic!("expected a group"),
    }
    let all = o.all_objects();
    assert_eq!(all.len(), 3);
    assert_eq!(o.triggers(&player()).len(), 1);
}
