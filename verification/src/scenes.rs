//! The scene description model: a forest of typed objects with per-object
//! local transforms, scenes with a camera, and the collection of all
//! scenes keyed by name; plus the parser for the authored text format and
//! the traversal queries the game loop consumes.
use vstd::prelude::*;
use vstd::string::{StrSliceExecFns, StringExecFns};
use crate::fixed::Fx;
use crate::geom::{V3, Quat, Transform};
use crate::collision::ColliderType;
use crate::player::{PlayerData, PlayerView};
use crate::requirements::{Requirements, ReqsView, spec_reqs_view, spec_eval_reqs};
use crate::parse::{ParseErr, ParseErrView, spec_trim, trim_of, str_eq,
    spec_split_bracket, split_bracket, spec_split_args, split_args,
    spec_parse_fx, parse_fx, spec_trim_start,
    lemma_split_bracket_bounds, lemma_split_args_bounds};

verus! {

/// What a scene-graph node is, and which children it owns.
#[derive(Debug)]
pub enum ObjectType {
    Trigger { col_type: ColliderType },
    Collider { col_type: ColliderType },
    Image { image_path: String },
    Mesh { mesh_path: String, image_path: String },
    Exit { exit_scene: String, exit_name: String, collider: Box<Object> },
    Dialogue { script_path: String, collider: Box<Object> },
    Group { objects: Vec<Object> },
    If { object: Box<Object>, requirements: Requirements },
    PointLight { strength: Fx, colour: V3 },
    DirLight { strength: Fx, colour: V3 },
}

/// A scene-graph node: a name, a local transform kept both composed and
/// decomposed, and the node kind.
#[derive(Debug)]
pub struct Object {
    pub name: String,
    pub object_type: ObjectType,
    pub pos: V3,
    pub rot: V3,
    pub quat: Quat,
    pub trans: Transform,
    pub scale: V3,
}

/// One scene: a camera and its top-level objects.
#[derive(Debug)]
pub struct Scene {
    pub name: String,
    pub objects: Vec<Object>,
    pub cam_pos: V3,
    pub cam_rot: V3,
    pub cam_quat: Quat,
    pub cam_trans: Transform,
    pub cam_scale: V3,
}

/// Every scene of the game, looked up by position or by name.
#[derive(Debug)]
pub struct GameScenes {
    pub scenes: Vec<Scene>,
}

/// What a visible object asks the renderer to draw.
#[derive(Debug, PartialEq)]
pub enum DrawInfo {
    Mesh(String, String),
    Image(String),
    DebugSphere,
    DebugCylinder,
    DebugCube,
}

/// Diagnostic switches, read once at startup and passed down explicitly.
/// They only ever add debug geometry; they never change parse or
/// evaluation results.
#[derive(Debug, Clone, Copy, PartialEq, Eq, Structural)]
pub struct DebugOptions {
    pub trace_parsing: bool,
    pub show_colliders: bool,
    pub show_lights: bool,
}

/// The mathematical image of an [`ObjectType`].
pub enum ObjectTypeView {
    Trigger { col_type: ColliderType },
    Collider { col_type: ColliderType },
    Image { image_path: Seq<char> },
    Mesh { mesh_path: Seq<char>, image_path: Seq<char> },
    Exit { exit_scene: Seq<char>, exit_name: Seq<char>, collider: Box<ObjectView> },
    Dialogue { script_path: Seq<char>, collider: Box<ObjectView> },
    Group { objects: Seq<ObjectView> },
    If { object: Box<ObjectView>, requirements: ReqsView },
    PointLight { strength: Fx, colour: V3 },
    DirLight { strength: Fx, colour: V3 },
}

/// The mathematical image of an [`Object`].
pub struct ObjectView {
    pub name: Seq<char>,
    pub object_type: ObjectTypeView,
    pub pos: V3,
    pub rot: V3,
    pub quat: Quat,
    pub trans: Transform,
    pub scale: V3,
}

/// The mathematical image of a [`Scene`].
pub struct SceneView {
    pub name: Seq<char>,
    pub objects: Seq<ObjectView>,
    pub cam_pos: V3,
    pub cam_rot: V3,
    pub cam_quat: Quat,
    pub cam_trans: Transform,
    pub cam_scale: V3,
}

pub open spec fn spec_object_type_view(ot: ObjectType) -> ObjectTypeView
    decreases ot,
{
    match ot {
        ObjectType::Trigger { col_type } => ObjectTypeView::Trigger { col_type },
        ObjectType::Collider { col_type } => ObjectTypeView::Collider { col_type },
        ObjectType::Image { image_path } => ObjectTypeView::Image { image_path: image_path@ },
        ObjectType::Mesh { mesh_path, image_path } => ObjectTypeView::Mesh {
            mesh_path: mesh_path@,
            image_path: image_path@,
        },
        ObjectType::Exit { exit_scene, exit_name, collider } => ObjectTypeView::Exit {
            exit_scene: exit_scene@,
            exit_name: exit_name@,
            collider: Box::new(spec_object_view(*collider)),
        },
        ObjectType::Dialogue { script_path, collider } => ObjectTypeView::Dialogue {
            script_path: script_path@,
            collider: Box::new(spec_object_view(*collider)),
        },
        ObjectType::Group { objects } => ObjectTypeView::Group {
            objects: spec_objects_view(objects@),
        },
        ObjectType::If { object, requirements } => ObjectTypeView::If {
            object: Box::new(spec_object_view(*object)),
            requirements: spec_reqs_view(requirements),
        },
        ObjectType::PointLight { strength, colour } => ObjectTypeView::PointLight {
            strength,
            colour,
        },
        ObjectType::DirLight { strength, colour } => ObjectTypeView::DirLight {
            strength,
            colour,
        },
    }
}

pub open spec fn spec_object_view(o: Object) -> ObjectView
    decreases o,
{
    ObjectView {
        name: o.name@,
        object_type: spec_object_type_view(o.object_type),
        pos: o.pos,
        rot: o.rot,
        quat: o.quat,
        trans: o.trans,
        scale: o.scale,
    }
}

pub open spec fn spec_objects_view(list: Seq<Object>) -> Seq<ObjectView>
    decreases list,
{
    if list.len() == 0 {
        Seq::empty()
    } else {
        seq![spec_object_view(list[0])] + spec_objects_view(list.drop_first())
    }
}

impl View for Object {
    type V = ObjectView;

    open spec fn view(&self) -> ObjectView {
        spec_object_view(*self)
    }
}

impl View for Scene {
    type V = SceneView;

    open spec fn view(&self) -> SceneView {
        SceneView {
            name: self.name@,
            objects: spec_objects_view(self.objects@),
            cam_pos: self.cam_pos,
            cam_rot: self.cam_rot,
            cam_quat: self.cam_quat,
            cam_trans: self.cam_trans,
            cam_scale: self.cam_scale,
        }
    }
}

/// The images of every scene.
pub open spec fn spec_scenes_view(list: Seq<Scene>) -> Seq<SceneView>
    decreases list,
{
    if list.len() == 0 {
        Seq::empty()
    } else {
        seq![list[0]@] + spec_scenes_view(list.drop_first())
    }
}

impl View for GameScenes {
    type V = Seq<SceneView>;

    open spec fn view(&self) -> Seq<SceneView> {
        spec_scenes_view(self.scenes@)
    }
}

pub proof fn lemma_objects_view_len(list: Seq<Object>)
    ensures
        spec_objects_view(list).len() == list.len(),
    decreases list.len(),
{
    if list.len() > 0 {
        lemma_objects_view_len(list.drop_first());
    }
}

pub proof fn lemma_objects_view_index(list: Seq<Object>, i: int)
    requires
        0 <= i < list.len(),
    ensures
        spec_objects_view(list).len() == list.len(),
        spec_objects_view(list)[i] == spec_object_view(list[i]),
    decreases list.len(),
{
    lemma_objects_view_len(list);
    if i > 0 {
        lemma_objects_view_index(list.drop_first(), i - 1);
    }
}

/// Two object lists with pointwise equal images have the same image.
pub proof fn lemma_objects_view_eq(a: Seq<Object>, b: Seq<Object>)
    requires
        a.len() == b.len(),
        forall|k: int|
            0 <= k < a.len() ==> spec_object_view(#[trigger] a[k]) == spec_object_view(b[k]),
    ensures
        spec_objects_view(a) == spec_objects_view(b),
{
    lemma_objects_view_len(a);
    lemma_objects_view_len(b);
    assert forall|k: int| 0 <= k < spec_objects_view(a).len() implies spec_objects_view(a)[k]
        == spec_objects_view(b)[k] by {
        lemma_objects_view_index(a, k);
        lemma_objects_view_index(b, k);
    }
    assert(spec_objects_view(a) =~= spec_objects_view(b));
}

impl Object {
    /// A copy with the same mathematical image.
    #[verifier::loop_isolation(false)]
    pub fn duplicate(&self) -> (r: Object)
        ensures
            r@ == self@,
        decreases *self,
    {
        let object_type = match &self.object_type {
            ObjectType::Trigger { col_type } => ObjectType::Trigger { col_type: *col_type },
            ObjectType::Collider { col_type } => ObjectType::Collider { col_type: *col_type },
            ObjectType::Image { image_path } => ObjectType::Image {
                image_path: image_path.clone(),
            },
            ObjectType::Mesh { mesh_path, image_path } => ObjectType::Mesh {
                mesh_path: mesh_path.clone(),
                image_path: image_path.clone(),
            },
            ObjectType::Exit { exit_scene, exit_name, collider } => ObjectType::Exit {
                exit_scene: exit_scene.clone(),
                exit_name: exit_name.clone(),
                collider: Box::new(collider.duplicate()),
            },
            ObjectType::Dialogue { script_path, collider } => ObjectType::Dialogue {
                script_path: script_path.clone(),
                collider: Box::new(collider.duplicate()),
            },
            ObjectType::Group { objects } => {
                let n = objects.len();
                let mut list: Vec<Object> = Vec::new();
                let mut i: usize = 0;
                while i < n
                    invariant
                        0 <= i <= n,
                        n == objects.len(),
                        list@.len() == i,
                        forall|k: int|
                            0 <= k < i ==> spec_object_view(#[trigger] list@[k])
                                == spec_object_view(objects@[k]),
                    decreases n - i,
                {
                    proof {
                        assert(decreases_to!(*self => objects@[i as int]));
                    }
                    let d = objects[i].duplicate();
                    list.push(d);
                    i = i + 1;
                }
                proof {
                    lemma_objects_view_eq(list@, objects@);
                }
                ObjectType::Group { objects: list }
            },
            ObjectType::If { object, requirements } => ObjectType::If {
                object: Box::new(object.duplicate()),
                requirements: requirements.duplicate(),
            },
            ObjectType::PointLight { strength, colour } => ObjectType::PointLight {
                strength: *strength,
                colour: *colour,
            },
            ObjectType::DirLight { strength, colour } => ObjectType::DirLight {
                strength: *strength,
                colour: *colour,
            },
        };
        Object {
            name: self.name.clone(),
            object_type,
            pos: self.pos,
            rot: self.rot,
            quat: self.quat,
            trans: self.trans,
            scale: self.scale,
        }
    }
}

/// The image of a list of object and transform pairs.
pub open spec fn spec_pairs_view(v: Seq<(Object, Transform)>) -> Seq<(ObjectView, Transform)>
    decreases v,
{
    if v.len() == 0 {
        Seq::empty()
    } else {
        seq![(spec_object_view(v[0].0), v[0].1)] + spec_pairs_view(v.drop_first())
    }
}

pub proof fn lemma_pairs_view_len(v: Seq<(Object, Transform)>)
    ensures
        spec_pairs_view(v).len() == v.len(),
    decreases v.len(),
{
    if v.len() > 0 {
        lemma_pairs_view_len(v.drop_first());
    }
}

pub proof fn lemma_pairs_view_index(v: Seq<(Object, Transform)>, i: int)
    requires
        0 <= i < v.len(),
    ensures
        spec_pairs_view(v).len() == v.len(),
        spec_pairs_view(v)[i] == (spec_object_view(v[i].0), v[i].1),
    decreases v.len(),
{
    lemma_pairs_view_len(v);
    if i > 0 {
        lemma_pairs_view_index(v.drop_first(), i - 1);
    }
}

pub proof fn lemma_pairs_view_concat(a: Seq<(Object, Transform)>, b: Seq<(Object, Transform)>)
    ensures
        spec_pairs_view(a + b) == spec_pairs_view(a) + spec_pairs_view(b),
{
    lemma_pairs_view_len(a);
    lemma_pairs_view_len(b);
    lemma_pairs_view_len(a + b);
    assert forall|k: int| 0 <= k < spec_pairs_view(a + b).len() implies spec_pairs_view(a + b)[k]
        == (spec_pairs_view(a) + spec_pairs_view(b))[k] by {
        lemma_pairs_view_index(a + b, k);
        if k < a.len() {
            lemma_pairs_view_index(a, k);
            assert((a + b)[k] == a[k]);
        } else {
            lemma_pairs_view_index(b, k - a.len());
            assert((a + b)[k] == b[k - a.len()]);
        }
    }
    assert(spec_pairs_view(a + b) =~= spec_pairs_view(a) + spec_pairs_view(b));
}

pub proof fn lemma_pairs_view_push(v: Seq<(Object, Transform)>, o: Object, t: Transform)
    ensures
        spec_pairs_view(v.push((o, t))) == spec_pairs_view(v).push((spec_object_view(o), t)),
{
    let a = spec_pairs_view(v.push((o, t)));
    let b = spec_pairs_view(v).push((spec_object_view(o), t));
    lemma_pairs_view_len(v.push((o, t)));
    lemma_pairs_view_len(v);
    assert forall|k: int| 0 <= k < a.len() implies a[k] == b[k] by {
        lemma_pairs_view_index(v.push((o, t)), k);
        if k < v.len() {
            lemma_pairs_view_index(v, k);
            assert(v.push((o, t))[k] == v[k]);
        } else {
            assert(v.push((o, t))[k] == (o, t));
        }
    }
    assert(a =~= b);
}

/// Depth-first traversal under an accumulated parent transform: children
/// come first, each under the parent transform composed with this node's
/// local transform, and the node itself is appended last under that same
/// composed transform.
pub open spec fn spec_all_with_parent(o: ObjectView, t: Transform) -> Seq<(ObjectView, Transform)>
    decreases o,
{
    let t2 = t.spec_compose(o.trans);
    (match o.object_type {
        ObjectTypeView::Group { objects } => spec_all_list(objects, t2),
        ObjectTypeView::If { object, .. } => spec_all_with_parent(*object, t2),
        ObjectTypeView::Exit { collider, .. } => spec_all_with_parent(*collider, t2),
        ObjectTypeView::Dialogue { collider, .. } => spec_all_with_parent(*collider, t2),
        _ => Seq::empty(),
    }).push((o, t2))
}

pub open spec fn spec_all_list(list: Seq<ObjectView>, t: Transform) -> Seq<(ObjectView, Transform)>
    decreases list,
{
    if list.len() == 0 {
        Seq::empty()
    } else {
        spec_all_with_parent(list[0], t) + spec_all_list(list.drop_first(), t)
    }
}

/// The root traversal: as `spec_all_with_parent`, but the node's own local
/// transform is the accumulated transform.
pub open spec fn spec_all_objects_obj(o: ObjectView) -> Seq<(ObjectView, Transform)> {
    let t = o.trans;
    (match o.object_type {
        ObjectTypeView::Group { objects } => spec_all_list(objects, t),
        ObjectTypeView::If { object, .. } => spec_all_with_parent(*object, t),
        ObjectTypeView::Exit { collider, .. } => spec_all_with_parent(*collider, t),
        ObjectTypeView::Dialogue { collider, .. } => spec_all_with_parent(*collider, t),
        _ => Seq::empty(),
    }).push((o, t))
}

/// The validity-aware traversal: as the plain one, except that a
/// conditional node's subtree is skipped when its requirement evaluates
/// false (the conditional node itself is still appended), while exit and
/// dialogue wrappers are always transparent.
pub open spec fn spec_valid_with_parent(o: ObjectView, t: Transform, p: PlayerView) -> Seq<
    (ObjectView, Transform),
>
    decreases o,
{
    let t2 = t.spec_compose(o.trans);
    (match o.object_type {
        ObjectTypeView::Group { objects } => spec_valid_list(objects, t2, p),
        ObjectTypeView::Exit { collider, .. } => spec_valid_with_parent(*collider, t2, p),
        ObjectTypeView::Dialogue { collider, .. } => spec_valid_with_parent(*collider, t2, p),
        ObjectTypeView::If { object, requirements } => if spec_eval_reqs(requirements, p) {
            spec_valid_with_parent(*object, t2, p)
        } else {
            Seq::empty()
        },
        _ => Seq::empty(),
    }).push((o, t2))
}

pub open spec fn spec_valid_list(list: Seq<ObjectView>, t: Transform, p: PlayerView) -> Seq<
    (ObjectView, Transform),
>
    decreases list,
{
    if list.len() == 0 {
        Seq::empty()
    } else {
        spec_valid_with_parent(list[0], t, p) + spec_valid_list(list.drop_first(), t, p)
    }
}

pub open spec fn spec_valid_objects_obj(o: ObjectView, p: PlayerView) -> Seq<
    (ObjectView, Transform),
> {
    let t = o.trans;
    (match o.object_type {
        ObjectTypeView::Group { objects } => spec_valid_list(objects, t, p),
        ObjectTypeView::Exit { collider, .. } => spec_valid_with_parent(*collider, t, p),
        ObjectTypeView::Dialogue { collider, .. } => spec_valid_with_parent(*collider, t, p),
        ObjectTypeView::If { object, requirements } => if spec_eval_reqs(requirements, p) {
            spec_valid_with_parent(*object, t, p)
        } else {
            Seq::empty()
        },
        _ => Seq::empty(),
    }).push((o, t))
}

/// A whole scene's traversal: every top-level object's traversal, in
/// order.
pub open spec fn spec_scene_all(list: Seq<ObjectView>) -> Seq<(ObjectView, Transform)>
    decreases list.len(),
{
    if list.len() == 0 {
        Seq::empty()
    } else {
        spec_all_objects_obj(list[0]) + spec_scene_all(list.drop_first())
    }
}

pub open spec fn spec_scene_valid(list: Seq<ObjectView>, p: PlayerView) -> Seq<
    (ObjectView, Transform),
>
    decreases list.len(),
{
    if list.len() == 0 {
        Seq::empty()
    } else {
        spec_valid_objects_obj(list[0], p) + spec_scene_valid(list.drop_first(), p)
    }
}

impl Object {
    /// Children first under the composed transform, then this node.
    #[verifier::loop_isolation(false)]
    pub fn all_objects_with_parent(&self, t: Transform) -> (r: Vec<(Object, Transform)>)
        ensures
            spec_pairs_view(r@) == spec_all_with_parent(self@, t),
        decreases *self,
    {
        let t2 = t.compose(self.trans);
        let mut results: Vec<(Object, Transform)> = Vec::new();
        proof {
            assert(spec_pairs_view(results@) =~= Seq::<(ObjectView, Transform)>::empty());
        }
        match &self.object_type {
            ObjectType::Group { objects } => {
                let n = objects.len();
                let ghost lv = spec_objects_view(objects@);
                proof {
                    lemma_objects_view_len(objects@);
                    assert(lv.subrange(0, n as int) =~= lv);
                }
                let mut i: usize = 0;
                while i < n
                    invariant
                        0 <= i <= n,
                        spec_all_list(lv, t2) == spec_pairs_view(results@) + spec_all_list(
                            lv.subrange(i as int, n as int),
                            t2,
                        ),
                    decreases n - i,
                {
                    proof {
                        assert(decreases_to!(*self => objects@[i as int]));
                        lemma_objects_view_index(objects@, i as int);
                        assert(lv.subrange(i as int, n as int)[0] == lv[i as int]);
                        assert(lv.subrange(i as int, n as int).drop_first() =~= lv.subrange(
                            i as int + 1,
                            n as int,
                        ));
                    }
                    let mut sub = objects[i].all_objects_with_parent(t2);
                    let ghost prev = results@;
                    let ghost subv = sub@;
                    results.append(&mut sub);
                    proof {
                        lemma_pairs_view_concat(prev, subv);
                    }
                    i = i + 1;
                }
                proof {
                    assert(lv.subrange(n as int, n as int) =~= Seq::<ObjectView>::empty());
                    assert(spec_pairs_view(results@) + Seq::<(ObjectView, Transform)>::empty()
                        =~= spec_pairs_view(results@));
                }
            },
            ObjectType::If { object, .. } => {
                let mut sub = object.all_objects_with_parent(t2);
                let ghost prev = results@;
                let ghost subv = sub@;
                results.append(&mut sub);
                proof {
                    lemma_pairs_view_concat(prev, subv);
                    assert(Seq::<(ObjectView, Transform)>::empty() + spec_pairs_view(subv)
                        =~= spec_pairs_view(subv));
                }
            },
            ObjectType::Exit { collider, .. } => {
                let mut sub = collider.all_objects_with_parent(t2);
                let ghost prev = results@;
                let ghost subv = sub@;
                results.append(&mut sub);
                proof {
                    lemma_pairs_view_concat(prev, subv);
                    assert(Seq::<(ObjectView, Transform)>::empty() + spec_pairs_view(subv)
                        =~= spec_pairs_view(subv));
                }
            },
            ObjectType::Dialogue { collider, .. } => {
                let mut sub = collider.all_objects_with_parent(t2);
                let ghost prev = results@;
                let ghost subv = sub@;
                results.append(&mut sub);
                proof {
                    lemma_pairs_view_concat(prev, subv);
                    assert(Seq::<(ObjectView, Transform)>::empty() + spec_pairs_view(subv)
                        =~= spec_pairs_view(subv));
                }
            },
            _ => {},
        }
        let ghost prev = results@;
        results.push((self.duplicate(), t2));
        proof {
            lemma_pairs_view_push(prev, results@[prev.len() as int].0, t2);
        }
        results
    }

    /// The traversal rooted at this node.
    pub fn all_objects(&self) -> (r: Vec<(Object, Transform)>)
        ensures
            spec_pairs_view(r@) == spec_all_objects_obj(self@),
    {
        let t = self.trans;
        let mut results: Vec<(Object, Transform)> = Vec::new();
        proof {
            assert(spec_pairs_view(results@) =~= Seq::<(ObjectView, Transform)>::empty());
        }
        match &self.object_type {
            ObjectType::Group { objects } => {
                let mut sub = all_list_exec(objects, t);
                let ghost subv = sub@;
                results.append(&mut sub);
                proof {
                    lemma_pairs_view_concat(Seq::empty(), subv);
                    assert(Seq::<(Object, Transform)>::empty() + subv =~= subv);
                }
            },
            ObjectType::If { object, .. } => {
                let mut sub = object.all_objects_with_parent(t);
                let ghost subv = sub@;
                results.append(&mut sub);
                proof {
                    assert(Seq::<(Object, Transform)>::empty() + subv =~= subv);
                }
            },
            ObjectType::Exit { collider, .. } => {
                let mut sub = collider.all_objects_with_parent(t);
                let ghost subv = sub@;
                results.append(&mut sub);
                proof {
                    assert(Seq::<(Object, Transform)>::empty() + subv =~= subv);
                }
            },
            ObjectType::Dialogue { collider, .. } => {
                let mut sub = collider.all_objects_with_parent(t);
                let ghost subv = sub@;
                results.append(&mut sub);
                proof {
                    assert(Seq::<(Object, Transform)>::empty() + subv =~= subv);
                }
            },
            _ => {},
        }
        let ghost prev = results@;
        results.push((self.duplicate(), t));
        proof {
            lemma_pairs_view_push(prev, results@[prev.len() as int].0, t);
        }
        results
    }

    /// Children first, pruning conditional subtrees whose requirement
    /// fails against the given player state.
    #[verifier::loop_isolation(false)]
    pub fn all_valid_objects_with_parent(&self, t: Transform, data: &PlayerData) -> (r: Vec<
        (Object, Transform),
    >)
        ensures
            spec_pairs_view(r@) == spec_valid_with_parent(self@, t, data@),
        decreases *self,
    {
        let t2 = t.compose(self.trans);
        let mut results: Vec<(Object, Transform)> = Vec::new();
        proof {
            assert(spec_pairs_view(results@) =~= Seq::<(ObjectView, Transform)>::empty());
        }
        match &self.object_type {
            ObjectType::Group { objects } => {
                let n = objects.len();
                let ghost lv = spec_objects_view(objects@);
                proof {
                    lemma_objects_view_len(objects@);
                    assert(lv.subrange(0, n as int) =~= lv);
                }
                let mut i: usize = 0;
                while i < n
                    invariant
                        0 <= i <= n,
                        spec_valid_list(lv, t2, data@) == spec_pairs_view(results@)
                            + spec_valid_list(lv.subrange(i as int, n as int), t2, data@),
                    decreases n - i,
                {
                    proof {
                        assert(decreases_to!(*self => objects@[i as int]));
                        lemma_objects_view_index(objects@, i as int);
                        assert(lv.subrange(i as int, n as int)[0] == lv[i as int]);
                        assert(lv.subrange(i as int, n as int).drop_first() =~= lv.subrange(
                            i as int + 1,
                            n as int,
                        ));
                    }
                    let mut sub = objects[i].all_valid_objects_with_parent(t2, data);
                    let ghost prev = results@;
                    let ghost subv = sub@;
                    results.append(&mut sub);
                    proof {
                        lemma_pairs_view_concat(prev, subv);
                    }
                    i = i + 1;
                }
                proof {
                    assert(lv.subrange(n as int, n as int) =~= Seq::<ObjectView>::empty());
                    assert(spec_pairs_view(results@) + Seq::<(ObjectView, Transform)>::empty()
                        =~= spec_pairs_view(results@));
                }
            },
            ObjectType::Exit { collider, .. } => {
                let mut sub = collider.all_valid_objects_with_parent(t2, data);
                let ghost subv = sub@;
                results.append(&mut sub);
                proof {
                    assert(Seq::<(Object, Transform)>::empty() + subv =~= subv);
                }
            },
            ObjectType::Dialogue { collider, .. } => {
                let mut sub = collider.all_valid_objects_with_parent(t2, data);
                let ghost subv = sub@;
                results.append(&mut sub);
                proof {
                    assert(Seq::<(Object, Transform)>::empty() + subv =~= subv);
                }
            },
            ObjectType::If { object, requirements } => {
                if requirements.evaluate(data) {
                    let mut sub = object.all_valid_objects_with_parent(t2, data);
                    let ghost subv = sub@;
                    results.append(&mut sub);
                    proof {
                        assert(Seq::<(Object, Transform)>::empty() + subv =~= subv);
                    }
                }
            },
            _ => {},
        }
        let ghost prev = results@;
        results.push((self.duplicate(), t2));
        proof {
            lemma_pairs_view_push(prev, results@[prev.len() as int].0, t2);
        }
        results
    }

    /// The validity-aware traversal rooted at this node.
    pub fn all_valid_objects(&self, data: &PlayerData) -> (r: Vec<(Object, Transform)>)
        ensures
            spec_pairs_view(r@) == spec_valid_objects_obj(self@, data@),
    {
        let t = self.trans;
        let mut results: Vec<(Object, Transform)> = Vec::new();
        proof {
            assert(spec_pairs_view(results@) =~= Seq::<(ObjectView, Transform)>::empty());
        }
        match &self.object_type {
            ObjectType::Group { objects } => {
                let mut sub = valid_list_exec(objects, t, data);
                let ghost subv = sub@;
                results.append(&mut sub);
                proof {
                    assert(Seq::<(Object, Transform)>::empty() + subv =~= subv);
                }
            },
            ObjectType::Exit { collider, .. } => {
                let mut sub = collider.all_valid_objects_with_parent(t, data);
                let ghost subv = sub@;
                results.append(&mut sub);
                proof {
                    assert(Seq::<(Object, Transform)>::empty() + subv =~= subv);
                }
            },
            ObjectType::Dialogue { collider, .. } => {
                let mut sub = collider.all_valid_objects_with_parent(t, data);
                let ghost subv = sub@;
                results.append(&mut sub);
                proof {
                    assert(Seq::<(Object, Transform)>::empty() + subv =~= subv);
                }
            },
            ObjectType::If { object, requirements } => {
                if requirements.evaluate(data) {
                    let mut sub = object.all_valid_objects_with_parent(t, data);
                    let ghost subv = sub@;
                    results.append(&mut sub);
                    proof {
                        assert(Seq::<(Object, Transform)>::empty() + subv =~= subv);
                    }
                }
            },
            _ => {},
        }
        let ghost prev = results@;
        results.push((self.duplicate(), t));
        proof {
            lemma_pairs_view_push(prev, results@[prev.len() as int].0, t);
        }
        results
    }
}

/// Traversal of a list of sibling objects under one parent transform.
#[verifier::loop_isolation(false)]
fn all_list_exec(objects: &Vec<Object>, t: Transform) -> (r: Vec<(Object, Transform)>)
    ensures
        spec_pairs_view(r@) == spec_all_list(spec_objects_view(objects@), t),
{
    let n = objects.len();
    let ghost lv = spec_objects_view(objects@);
    proof {
        lemma_objects_view_len(objects@);
        assert(lv.subrange(0, n as int) =~= lv);
    }
    let mut results: Vec<(Object, Transform)> = Vec::new();
    proof {
        assert(spec_pairs_view(results@) =~= Seq::<(ObjectView, Transform)>::empty());
    }
    let mut i: usize = 0;
    while i < n
        invariant
            0 <= i <= n,
            spec_all_list(lv, t) == spec_pairs_view(results@) + spec_all_list(
                lv.subrange(i as int, n as int),
                t,
            ),
        decreases n - i,
    {
        proof {
            lemma_objects_view_index(objects@, i as int);
            assert(lv.subrange(i as int, n as int)[0] == lv[i as int]);
            assert(lv.subrange(i as int, n as int).drop_first() =~= lv.subrange(
                i as int + 1,
                n as int,
            ));
        }
        let mut sub = objects[i].all_objects_with_parent(t);
        let ghost prev = results@;
        let ghost subv = sub@;
        results.append(&mut sub);
        proof {
            lemma_pairs_view_concat(prev, subv);
        }
        i = i + 1;
    }
    proof {
        assert(lv.subrange(n as int, n as int) =~= Seq::<ObjectView>::empty());
        assert(spec_pairs_view(results@) + Seq::<(ObjectView, Transform)>::empty()
            =~= spec_pairs_view(results@));
    }
    results
}

/// Validity-aware traversal of a list of sibling objects.
#[verifier::loop_isolation(false)]
fn valid_list_exec(objects: &Vec<Object>, t: Transform, data: &PlayerData) -> (r: Vec<
    (Object, Transform),
>)
    ensures
        spec_pairs_view(r@) == spec_valid_list(spec_objects_view(objects@), t, data@),
{
    let n = objects.len();
    let ghost lv = spec_objects_view(objects@);
    proof {
        lemma_objects_view_len(objects@);
        assert(lv.subrange(0, n as int) =~= lv);
    }
    let mut results: Vec<(Object, Transform)> = Vec::new();
    proof {
        assert(spec_pairs_view(results@) =~= Seq::<(ObjectView, Transform)>::empty());
    }
    let mut i: usize = 0;
    while i < n
        invariant
            0 <= i <= n,
            spec_valid_list(lv, t, data@) == spec_pairs_view(results@) + spec_valid_list(
                lv.subrange(i as int, n as int),
                t,
                data@,
            ),
        decreases n - i,
    {
        proof {
            lemma_objects_view_index(objects@, i as int);
            assert(lv.subrange(i as int, n as int)[0] == lv[i as int]);
            assert(lv.subrange(i as int, n as int).drop_first() =~= lv.subrange(
                i as int + 1,
                n as int,
            ));
        }
        let mut sub = objects[i].all_valid_objects_with_parent(t, data);
        let ghost prev = results@;
        let ghost subv = sub@;
        results.append(&mut sub);
        proof {
            lemma_pairs_view_concat(prev, subv);
        }
        i = i + 1;
    }
    proof {
        assert(lv.subrange(n as int, n as int) =~= Seq::<ObjectView>::empty());
        assert(spec_pairs_view(results@) + Seq::<(ObjectView, Transform)>::empty()
            =~= spec_pairs_view(results@));
    }
    results
}

impl Scene {
    /// Every object in the scene with its accumulated transform.
    #[verifier::loop_isolation(false)]
    pub fn all_objects(&self) -> (r: Vec<(Object, Transform)>)
        ensures
            spec_pairs_view(r@) == spec_scene_all(self@.objects),
    {
        let n = self.objects.len();
        let ghost lv = spec_objects_view(self.objects@);
        proof {
            lemma_objects_view_len(self.objects@);
            assert(lv.subrange(0, n as int) =~= lv);
        }
        let mut results: Vec<(Object, Transform)> = Vec::new();
        proof {
            assert(spec_pairs_view(results@) =~= Seq::<(ObjectView, Transform)>::empty());
        }
        let mut i: usize = 0;
        while i < n
            invariant
                0 <= i <= n,
                spec_scene_all(lv) == spec_pairs_view(results@) + spec_scene_all(
                    lv.subrange(i as int, n as int),
                ),
            decreases n - i,
        {
            proof {
                lemma_objects_view_index(self.objects@, i as int);
                assert(lv.subrange(i as int, n as int)[0] == lv[i as int]);
                assert(lv.subrange(i as int, n as int).drop_first() =~= lv.subrange(
                    i as int + 1,
                    n as int,
                ));
            }
            let mut sub = self.objects[i].all_objects();
            let ghost prev = results@;
            let ghost subv = sub@;
            results.append(&mut sub);
            proof {
                lemma_pairs_view_concat(prev, subv);
            }
            i = i + 1;
        }
        proof {
            assert(lv.subrange(n as int, n as int) =~= Seq::<ObjectView>::empty());
            assert(spec_pairs_view(results@) + Seq::<(ObjectView, Transform)>::empty()
                =~= spec_pairs_view(results@));
        }
        results
    }

    /// Every currently-valid object in the scene with its accumulated
    /// transform.
    #[verifier::loop_isolation(false)]
    pub fn all_valid_objects(&self, data: &PlayerData) -> (r: Vec<(Object, Transform)>)
        ensures
            spec_pairs_view(r@) == spec_scene_valid(self@.objects, data@),
    {
        let n = self.objects.len();
        let ghost lv = spec_objects_view(self.objects@);
        proof {
            lemma_objects_view_len(self.objects@);
            assert(lv.subrange(0, n as int) =~= lv);
        }
        let mut results: Vec<(Object, Transform)> = Vec::new();
        proof {
            assert(spec_pairs_view(results@) =~= Seq::<(ObjectView, Transform)>::empty());
        }
        let mut i: usize = 0;
        while i < n
            invariant
                0 <= i <= n,
                spec_scene_valid(lv, data@) == spec_pairs_view(results@) + spec_scene_valid(
                    lv.subrange(i as int, n as int),
                    data@,
                ),
            decreases n - i,
        {
            proof {
                lemma_objects_view_index(self.objects@, i as int);
                assert(lv.subrange(i as int, n as int)[0] == lv[i as int]);
                assert(lv.subrange(i as int, n as int).drop_first() =~= lv.subrange(
                    i as int + 1,
                    n as int,
                ));
            }
            let mut sub = self.objects[i].all_valid_objects(data);
            let ghost prev = results@;
            let ghost subv = sub@;
            results.append(&mut sub);
            proof {
                lemma_pairs_view_concat(prev, subv);
            }
            i = i + 1;
        }
        proof {
            assert(lv.subrange(n as int, n as int) =~= Seq::<ObjectView>::empty());
            assert(spec_pairs_view(results@) + Seq::<(ObjectView, Transform)>::empty()
                =~= spec_pairs_view(results@));
        }
        results
    }
}

/// The mathematical image of a [`DrawInfo`].
pub enum DrawInfoView {
    Mesh(Seq<char>, Seq<char>),
    Image(Seq<char>),
    DebugSphere,
    DebugCylinder,
    DebugCube,
}

impl View for DrawInfo {
    type V = DrawInfoView;

    open spec fn view(&self) -> DrawInfoView {
        match self {
            DrawInfo::Mesh(m, i) => DrawInfoView::Mesh(m@, i@),
            DrawInfo::Image(i) => DrawInfoView::Image(i@),
            DrawInfo::DebugSphere => DrawInfoView::DebugSphere,
            DrawInfo::DebugCylinder => DrawInfoView::DebugCylinder,
            DrawInfo::DebugCube => DrawInfoView::DebugCube,
        }
    }
}

/// The image of a list of draw entries.
pub open spec fn spec_draw_view(v: Seq<(DrawInfo, Transform)>) -> Seq<(DrawInfoView, Transform)>
    decreases v,
{
    if v.len() == 0 {
        Seq::empty()
    } else {
        seq![(v[0].0@, v[0].1)] + spec_draw_view(v.drop_first())
    }
}

pub proof fn lemma_draw_view_len(v: Seq<(DrawInfo, Transform)>)
    ensures
        spec_draw_view(v).len() == v.len(),
    decreases v.len(),
{
    if v.len() > 0 {
        lemma_draw_view_len(v.drop_first());
    }
}

pub proof fn lemma_draw_view_index(v: Seq<(DrawInfo, Transform)>, i: int)
    requires
        0 <= i < v.len(),
    ensures
        spec_draw_view(v).len() == v.len(),
        spec_draw_view(v)[i] == (v[i].0@, v[i].1),
    decreases v.len(),
{
    lemma_draw_view_len(v);
    if i > 0 {
        lemma_draw_view_index(v.drop_first(), i - 1);
    }
}

pub proof fn lemma_draw_view_push(v: Seq<(DrawInfo, Transform)>, x: (DrawInfo, Transform))
    ensures
        spec_draw_view(v.push(x)) == spec_draw_view(v).push((x.0@, x.1)),
{
    let a = spec_draw_view(v.push(x));
    let b = spec_draw_view(v).push((x.0@, x.1));
    lemma_draw_view_len(v.push(x));
    lemma_draw_view_len(v);
    assert forall|k: int| 0 <= k < a.len() implies a[k] == b[k] by {
        lemma_draw_view_index(v.push(x), k);
        if k < v.len() {
            lemma_draw_view_index(v, k);
            assert(v.push(x)[k] == v[k]);
        } else {
            assert(v.push(x)[k] == x);
        }
    }
    assert(a =~= b);
}

/// Glue for a filter step: emitting one element and going on equals
/// pushing it onto what is done and going on.
proof fn lemma_emit_step<A>(done: Seq<A>, x: A, rest: Seq<A>)
    ensures
        done + (seq![x] + rest) == done.push(x) + rest,
{
    assert(done + (seq![x] + rest) =~= done.push(x) + rest);
}

/// The image paths of every image and mesh entry, in traversal order.
pub open spec fn spec_image_paths(pairs: Seq<(ObjectView, Transform)>) -> Seq<Seq<char>>
    decreases pairs,
{
    if pairs.len() == 0 {
        Seq::empty()
    } else {
        (match pairs[0].0.object_type {
            ObjectTypeView::Image { image_path } => seq![image_path],
            ObjectTypeView::Mesh { image_path, .. } => seq![image_path],
            _ => Seq::empty(),
        }) + spec_image_paths(pairs.drop_first())
    }
}

/// The mesh paths of every mesh entry.
pub open spec fn spec_mesh_paths(pairs: Seq<(ObjectView, Transform)>) -> Seq<Seq<char>>
    decreases pairs,
{
    if pairs.len() == 0 {
        Seq::empty()
    } else {
        (match pairs[0].0.object_type {
            ObjectTypeView::Mesh { mesh_path, .. } => seq![mesh_path],
            _ => Seq::empty(),
        }) + spec_mesh_paths(pairs.drop_first())
    }
}

/// The script paths of every dialogue entry.
pub open spec fn spec_script_paths(pairs: Seq<(ObjectView, Transform)>) -> Seq<Seq<char>>
    decreases pairs,
{
    if pairs.len() == 0 {
        Seq::empty()
    } else {
        (match pairs[0].0.object_type {
            ObjectTypeView::Dialogue { script_path, .. } => seq![script_path],
            _ => Seq::empty(),
        }) + spec_script_paths(pairs.drop_first())
    }
}

/// The solid colliders with their accumulated transforms.
pub open spec fn spec_colliders(pairs: Seq<(ObjectView, Transform)>) -> Seq<
    (ColliderType, Transform),
>
    decreases pairs,
{
    if pairs.len() == 0 {
        Seq::empty()
    } else {
        (match pairs[0].0.object_type {
            ObjectTypeView::Collider { col_type } => seq![(col_type, pairs[0].1)],
            _ => Seq::empty(),
        }) + spec_colliders(pairs.drop_first())
    }
}

/// The trigger colliders with their accumulated transforms.
pub open spec fn spec_triggers(pairs: Seq<(ObjectView, Transform)>) -> Seq<
    (ColliderType, Transform),
>
    decreases pairs,
{
    if pairs.len() == 0 {
        Seq::empty()
    } else {
        (match pairs[0].0.object_type {
            ObjectTypeView::Trigger { col_type } => seq![(col_type, pairs[0].1)],
            _ => Seq::empty(),
        }) + spec_triggers(pairs.drop_first())
    }
}

/// What each entry asks the renderer to draw: meshes and images always,
/// light markers and collider wireframes only under the debug switches.
pub open spec fn spec_draw_info(pairs: Seq<(ObjectView, Transform)>, dbg: DebugOptions) -> Seq<
    (DrawInfoView, Transform),
>
    decreases pairs,
{
    if pairs.len() == 0 {
        Seq::empty()
    } else {
        (match pairs[0].0.object_type {
            ObjectTypeView::Mesh { mesh_path, image_path } => seq![
                (DrawInfoView::Mesh(mesh_path, image_path), pairs[0].1),
            ],
            ObjectTypeView::Image { image_path } => seq![
                (DrawInfoView::Image(image_path), pairs[0].1),
            ],
            ObjectTypeView::PointLight { .. } => if dbg.show_lights {
                seq![(DrawInfoView::DebugSphere, pairs[0].1)]
            } else {
                Seq::empty()
            },
            ObjectTypeView::DirLight { .. } => if dbg.show_lights {
                seq![(DrawInfoView::DebugCylinder, pairs[0].1)]
            } else {
                Seq::empty()
            },
            ObjectTypeView::Trigger { col_type } => if dbg.show_colliders {
                seq![(spec_collider_marker(col_type), pairs[0].1)]
            } else {
                Seq::empty()
            },
            ObjectTypeView::Collider { col_type } => if dbg.show_colliders {
                seq![(spec_collider_marker(col_type), pairs[0].1)]
            } else {
                Seq::empty()
            },
            _ => Seq::empty(),
        }) + spec_draw_info(pairs.drop_first(), dbg)
    }
}

/// The wireframe drawn for a collider of each shape.
pub open spec fn spec_collider_marker(c: ColliderType) -> DrawInfoView {
    match c {
        ColliderType::Cylinder => DrawInfoView::DebugCylinder,
        ColliderType::Cube => DrawInfoView::DebugCube,
        ColliderType::Sphere => DrawInfoView::DebugSphere,
    }
}

/// The dialogue wrapper entries.
pub open spec fn spec_dialogue_entries(pairs: Seq<(ObjectView, Transform)>) -> Seq<
    (ObjectView, Transform),
>
    decreases pairs,
{
    if pairs.len() == 0 {
        Seq::empty()
    } else {
        (if pairs[0].0.object_type is Dialogue {
            seq![pairs[0]]
        } else {
            Seq::empty()
        }) + spec_dialogue_entries(pairs.drop_first())
    }
}

/// The exit wrapper entries.
pub open spec fn spec_exit_entries(pairs: Seq<(ObjectView, Transform)>) -> Seq<
    (ObjectView, Transform),
>
    decreases pairs,
{
    if pairs.len() == 0 {
        Seq::empty()
    } else {
        (if pairs[0].0.object_type is Exit {
            seq![pairs[0]]
        } else {
            Seq::empty()
        }) + spec_exit_entries(pairs.drop_first())
    }
}

impl Scene {
    /// The image paths the scene needs loaded.
    #[verifier::loop_isolation(false)]
    pub fn image_paths(&self) -> (r: Vec<String>)
        ensures
            r.deep_view() == spec_image_paths(spec_scene_all(self@.objects)),
    {
        let all = self.all_objects();
        let ghost pv = spec_pairs_view(all@);
        let n = all.len();
        proof {
            lemma_pairs_view_len(all@);
            assert(pv.subrange(0, n as int) =~= pv);
        }
        let mut out: Vec<String> = Vec::new();
        proof {
            assert(out.deep_view() =~= Seq::<Seq<char>>::empty());
        }
        let mut i: usize = 0;
        while i < n
            invariant
                0 <= i <= n,
                spec_image_paths(pv) == out.deep_view() + spec_image_paths(
                    pv.subrange(i as int, n as int),
                ),
            decreases n - i,
        {
            proof {
                lemma_pairs_view_index(all@, i as int);
                assert(pv.subrange(i as int, n as int)[0] == pv[i as int]);
                assert(pv.subrange(i as int, n as int).drop_first() =~= pv.subrange(
                    i as int + 1,
                    n as int,
                ));
            }
            let ghost prev = out.deep_view();
            match &all[i].0.object_type {
                ObjectType::Image { image_path } => {
                    out.push(image_path.clone());
                    proof {
                        assert(out.deep_view() =~= prev.push(image_path@));
                        lemma_emit_step(
                            prev,
                            image_path@,
                            spec_image_paths(pv.subrange(i as int + 1, n as int)),
                        );
                    }
                },
                ObjectType::Mesh { image_path, .. } => {
                    out.push(image_path.clone());
                    proof {
                        assert(out.deep_view() =~= prev.push(image_path@));
                        lemma_emit_step(
                            prev,
                            image_path@,
                            spec_image_paths(pv.subrange(i as int + 1, n as int)),
                        );
                    }
                },
                _ => {
                    proof {
                        assert(Seq::<Seq<char>>::empty() + spec_image_paths(
                            pv.subrange(i as int + 1, n as int),
                        ) =~= spec_image_paths(pv.subrange(i as int + 1, n as int)));
                    }
                },
            }
            i = i + 1;
        }
        proof {
            assert(pv.subrange(n as int, n as int) =~= Seq::<(ObjectView, Transform)>::empty());
            assert(out.deep_view() + Seq::<Seq<char>>::empty() =~= out.deep_view());
        }
        out
    }

    /// The mesh paths the scene needs loaded.
    #[verifier::loop_isolation(false)]
    pub fn mesh_paths(&self) -> (r: Vec<String>)
        ensures
            r.deep_view() == spec_mesh_paths(spec_scene_all(self@.objects)),
    {
        let all = self.all_objects();
        let ghost pv = spec_pairs_view(all@);
        let n = all.len();
        proof {
            lemma_pairs_view_len(all@);
            assert(pv.subrange(0, n as int) =~= pv);
        }
        let mut out: Vec<String> = Vec::new();
        proof {
            assert(out.deep_view() =~= Seq::<Seq<char>>::empty());
        }
        let mut i: usize = 0;
        while i < n
            invariant
                0 <= i <= n,
                spec_mesh_paths(pv) == out.deep_view() + spec_mesh_paths(
                    pv.subrange(i as int, n as int),
                ),
            decreases n - i,
        {
            proof {
                lemma_pairs_view_index(all@, i as int);
                assert(pv.subrange(i as int, n as int)[0] == pv[i as int]);
                assert(pv.subrange(i as int, n as int).drop_first() =~= pv.subrange(
                    i as int + 1,
                    n as int,
                ));
            }
            let ghost prev = out.deep_view();
            match &all[i].0.object_type {
                ObjectType::Mesh { mesh_path, .. } => {
                    out.push(mesh_path.clone());
                    proof {
                        assert(out.deep_view() =~= prev.push(mesh_path@));
                        lemma_emit_step(
                            prev,
                            mesh_path@,
                            spec_mesh_paths(pv.subrange(i as int + 1, n as int)),
                        );
                    }
                },
                _ => {
                    proof {
                        assert(Seq::<Seq<char>>::empty() + spec_mesh_paths(
                            pv.subrange(i as int + 1, n as int),
                        ) =~= spec_mesh_paths(pv.subrange(i as int + 1, n as int)));
                    }
                },
            }
            i = i + 1;
        }
        proof {
            assert(pv.subrange(n as int, n as int) =~= Seq::<(ObjectView, Transform)>::empty());
            assert(out.deep_view() + Seq::<Seq<char>>::empty() =~= out.deep_view());
        }
        out
    }

    /// The dialogue script paths the scene references.
    #[verifier::loop_isolation(false)]
    pub fn script_paths(&self) -> (r: Vec<String>)
        ensures
            r.deep_view() == spec_script_paths(spec_scene_all(self@.objects)),
    {
        let all = self.all_objects();
        let ghost pv = spec_pairs_view(all@);
        let n = all.len();
        proof {
            lemma_pairs_view_len(all@);
            assert(pv.subrange(0, n as int) =~= pv);
        }
        let mut out: Vec<String> = Vec::new();
        proof {
            assert(out.deep_view() =~= Seq::<Seq<char>>::empty());
        }
        let mut i: usize = 0;
        while i < n
            invariant
                0 <= i <= n,
                spec_script_paths(pv) == out.deep_view() + spec_script_paths(
                    pv.subrange(i as int, n as int),
                ),
            decreases n - i,
        {
            proof {
                lemma_pairs_view_index(all@, i as int);
                assert(pv.subrange(i as int, n as int)[0] == pv[i as int]);
                assert(pv.subrange(i as int, n as int).drop_first() =~= pv.subrange(
                    i as int + 1,
                    n as int,
                ));
            }
            let ghost prev = out.deep_view();
            match &all[i].0.object_type {
                ObjectType::Dialogue { script_path, .. } => {
                    out.push(script_path.clone());
                    proof {
                        assert(out.deep_view() =~= prev.push(script_path@));
                        lemma_emit_step(
                            prev,
                            script_path@,
                            spec_script_paths(pv.subrange(i as int + 1, n as int)),
                        );
                    }
                },
                _ => {
                    proof {
                        assert(Seq::<Seq<char>>::empty() + spec_script_paths(
                            pv.subrange(i as int + 1, n as int),
                        ) =~= spec_script_paths(pv.subrange(i as int + 1, n as int)));
                    }
                },
            }
            i = i + 1;
        }
        proof {
            assert(pv.subrange(n as int, n as int) =~= Seq::<(ObjectView, Transform)>::empty());
            assert(out.deep_view() + Seq::<Seq<char>>::empty() =~= out.deep_view());
        }
        out
    }

    /// The currently-valid solid colliders with their world transforms.
    #[verifier::loop_isolation(false)]
    pub fn colliders(&self, data: &PlayerData) -> (r: Vec<(ColliderType, Transform)>)
        ensures
            r@ == spec_colliders(spec_scene_valid(self@.objects, data@)),
    {
        let all = self.all_valid_objects(data);
        let ghost pv = spec_pairs_view(all@);
        let n = all.len();
        proof {
            lemma_pairs_view_len(all@);
            assert(pv.subrange(0, n as int) =~= pv);
        }
        let mut out: Vec<(ColliderType, Transform)> = Vec::new();
        let mut i: usize = 0;
        while i < n
            invariant
                0 <= i <= n,
                spec_colliders(pv) == out@ + spec_colliders(pv.subrange(i as int, n as int)),
            decreases n - i,
        {
            proof {
                lemma_pairs_view_index(all@, i as int);
                assert(pv.subrange(i as int, n as int)[0] == pv[i as int]);
                assert(pv.subrange(i as int, n as int).drop_first() =~= pv.subrange(
                    i as int + 1,
                    n as int,
                ));
            }
            let ghost prev = out@;
            match &all[i].0.object_type {
                ObjectType::Collider { col_type } => {
                    out.push((*col_type, all[i].1));
                    proof {
                        lemma_emit_step(
                            prev,
                            (pv[i as int].0.object_type->Collider_col_type, pv[i as int].1),
                            spec_colliders(pv.subrange(i as int + 1, n as int)),
                        );
                    }
                },
                _ => {
                    proof {
                        assert(Seq::<(ColliderType, Transform)>::empty() + spec_colliders(
                            pv.subrange(i as int + 1, n as int),
                        ) =~= spec_colliders(pv.subrange(i as int + 1, n as int)));
                    }
                },
            }
            i = i + 1;
        }
        proof {
            assert(pv.subrange(n as int, n as int) =~= Seq::<(ObjectView, Transform)>::empty());
            assert(out@ + Seq::<(ColliderType, Transform)>::empty() =~= out@);
        }
        out
    }

    /// The currently-valid dialogue wrappers with their world transforms.
    #[verifier::loop_isolation(false)]
    #[verifier::rlimit(60)]
    pub fn dialogue(&self, data: &PlayerData) -> (r: Vec<(Object, Transform)>)
        ensures
            spec_pairs_view(r@) == spec_dialogue_entries(spec_scene_valid(self@.objects, data@)),
    {
        let all = self.all_valid_objects(data);
        let ghost pv = spec_pairs_view(all@);
        let n = all.len();
        proof {
            lemma_pairs_view_len(all@);
            assert(pv.subrange(0, n as int) =~= pv);
        }
        let mut out: Vec<(Object, Transform)> = Vec::new();
        proof {
            assert(spec_pairs_view(out@) =~= Seq::<(ObjectView, Transform)>::empty());
        }
        let mut i: usize = 0;
        while i < n
            invariant
                0 <= i <= n,
                spec_dialogue_entries(pv) == spec_pairs_view(out@) + spec_dialogue_entries(
                    pv.subrange(i as int, n as int),
                ),
            decreases n - i,
        {
            proof {
                lemma_pairs_view_index(all@, i as int);
                assert(pv.subrange(i as int, n as int)[0] == pv[i as int]);
                assert(pv.subrange(i as int, n as int).drop_first() =~= pv.subrange(
                    i as int + 1,
                    n as int,
                ));
            }
            let ghost prev = out@;
            let is_d = match &all[i].0.object_type {
                ObjectType::Dialogue { .. } => true,
                _ => false,
            };
            if is_d {
                out.push((all[i].0.duplicate(), all[i].1));
                proof {
                    lemma_pairs_view_push(prev, out@[prev.len() as int].0, all@[i as int].1);
                    lemma_emit_step(
                        spec_pairs_view(prev),
                        pv[i as int],
                        spec_dialogue_entries(pv.subrange(i as int + 1, n as int)),
                    );
                }
            } else {
                proof {
                    assert(Seq::<(ObjectView, Transform)>::empty() + spec_dialogue_entries(
                        pv.subrange(i as int + 1, n as int),
                    ) =~= spec_dialogue_entries(pv.subrange(i as int + 1, n as int)));
                }
            }
            i = i + 1;
        }
        proof {
            assert(pv.subrange(n as int, n as int) =~= Seq::<(ObjectView, Transform)>::empty());
            assert(spec_pairs_view(out@) + Seq::<(ObjectView, Transform)>::empty()
                =~= spec_pairs_view(out@));
        }
        out
    }

    /// The currently-valid exit wrappers with their world transforms.
    #[verifier::loop_isolation(false)]
    #[verifier::rlimit(60)]
    pub fn exits(&self, data: &PlayerData) -> (r: Vec<(Object, Transform)>)
        ensures
            spec_pairs_view(r@) == spec_exit_entries(spec_scene_valid(self@.objects, data@)),
    {
        let all = self.all_valid_objects(data);
        let ghost pv = spec_pairs_view(all@);
        let n = all.len();
        proof {
            lemma_pairs_view_len(all@);
            assert(pv.subrange(0, n as int) =~= pv);
        }
        let mut out: Vec<(Object, Transform)> = Vec::new();
        proof {
            assert(spec_pairs_view(out@) =~= Seq::<(ObjectView, Transform)>::empty());
        }
        let mut i: usize = 0;
        while i < n
            invariant
                0 <= i <= n,
                spec_exit_entries(pv) == spec_pairs_view(out@) + spec_exit_entries(
                    pv.subrange(i as int, n as int),
                ),
            decreases n - i,
        {
            proof {
                lemma_pairs_view_index(all@, i as int);
                assert(pv.subrange(i as int, n as int)[0] == pv[i as int]);
                assert(pv.subrange(i as int, n as int).drop_first() =~= pv.subrange(
                    i as int + 1,
                    n as int,
                ));
            }
            let ghost prev = out@;
            let is_e = match &all[i].0.object_type {
                ObjectType::Exit { .. } => true,
                _ => false,
            };
            if is_e {
                out.push((all[i].0.duplicate(), all[i].1));
                proof {
                    lemma_pairs_view_push(prev, out@[prev.len() as int].0, all@[i as int].1);
                    lemma_emit_step(
                        spec_pairs_view(prev),
                        pv[i as int],
                        spec_exit_entries(pv.subrange(i as int + 1, n as int)),
                    );
                }
            } else {
                proof {
                    assert(Seq::<(ObjectView, Transform)>::empty() + spec_exit_entries(
                        pv.subrange(i as int + 1, n as int),
                    ) =~= spec_exit_entries(pv.subrange(i as int + 1, n as int)));
                }
            }
            i = i + 1;
        }
        proof {
            assert(pv.subrange(n as int, n as int) =~= Seq::<(ObjectView, Transform)>::empty());
            assert(spec_pairs_view(out@) + Seq::<(ObjectView, Transform)>::empty()
                =~= spec_pairs_view(out@));
        }
        out
    }

    /// What the scene asks the renderer to draw for the given player
    /// state and debug switches.
    #[verifier::loop_isolation(false)]
    pub fn draw_info(&self, data: &PlayerData, dbg: &DebugOptions) -> (r: Vec<
        (DrawInfo, Transform),
    >)
        ensures
            spec_draw_view(r@) == spec_draw_info(spec_scene_valid(self@.objects, data@), *dbg),
    {
        let all = self.all_valid_objects(data);
        let ghost pv = spec_pairs_view(all@);
        let n = all.len();
        proof {
            lemma_pairs_view_len(all@);
            assert(pv.subrange(0, n as int) =~= pv);
        }
        let mut out: Vec<(DrawInfo, Transform)> = Vec::new();
        proof {
            assert(spec_draw_view(out@) =~= Seq::<(DrawInfoView, Transform)>::empty());
        }
        let mut i: usize = 0;
        while i < n
            invariant
                0 <= i <= n,
                spec_draw_info(pv, *dbg) == spec_draw_view(out@) + spec_draw_info(
                    pv.subrange(i as int, n as int),
                    *dbg,
                ),
            decreases n - i,
        {
            proof {
                lemma_pairs_view_index(all@, i as int);
                assert(pv.subrange(i as int, n as int)[0] == pv[i as int]);
                assert(pv.subrange(i as int, n as int).drop_first() =~= pv.subrange(
                    i as int + 1,
                    n as int,
                ));
            }
            let entry: Option<DrawInfo> = match &all[i].0.object_type {
                ObjectType::Mesh { mesh_path, image_path } => Some(
                    DrawInfo::Mesh(mesh_path.clone(), image_path.clone()),
                ),
                ObjectType::Image { image_path } => Some(DrawInfo::Image(image_path.clone())),
                ObjectType::PointLight { .. } => if dbg.show_lights {
                    Some(DrawInfo::DebugSphere)
                } else {
                    None
                },
                ObjectType::DirLight { .. } => if dbg.show_lights {
                    Some(DrawInfo::DebugCylinder)
                } else {
                    None
                },
                ObjectType::Trigger { col_type } => if dbg.show_colliders {
                    Some(collider_marker(*col_type))
                } else {
                    None
                },
                ObjectType::Collider { col_type } => if dbg.show_colliders {
                    Some(collider_marker(*col_type))
                } else {
                    None
                },
                _ => None,
            };
            let ghost prev = out@;
            match entry {
                Some(d) => {
                    let ghost dv = d@;
                    out.push((d, all[i].1));
                    proof {
                        lemma_draw_view_push(prev, (out@[prev.len() as int].0, all@[i as int].1));
                        lemma_emit_step(
                            spec_draw_view(prev),
                            (dv, pv[i as int].1),
                            spec_draw_info(pv.subrange(i as int + 1, n as int), *dbg),
                        );
                    }
                },
                None => {
                    proof {
                        assert(Seq::<(DrawInfoView, Transform)>::empty() + spec_draw_info(
                            pv.subrange(i as int + 1, n as int),
                            *dbg,
                        ) =~= spec_draw_info(pv.subrange(i as int + 1, n as int), *dbg));
                    }
                },
            }
            i = i + 1;
        }
        proof {
            assert(pv.subrange(n as int, n as int) =~= Seq::<(ObjectView, Transform)>::empty());
            assert(spec_draw_view(out@) + Seq::<(DrawInfoView, Transform)>::empty()
                =~= spec_draw_view(out@));
        }
        out
    }
}

/// The wireframe drawn for a collider of each shape.
pub fn collider_marker(c: ColliderType) -> (r: DrawInfo)
    ensures
        r@ == spec_collider_marker(c),
{
    match c {
        ColliderType::Cylinder => DrawInfo::DebugCylinder,
        ColliderType::Cube => DrawInfo::DebugCube,
        ColliderType::Sphere => DrawInfo::DebugSphere,
    }
}

impl Object {
    /// The trigger colliders under this node, each with its accumulated
    /// transform. The whole subtree counts, whether or not it is
    /// currently valid.
    #[verifier::loop_isolation(false)]
    #[allow(unused_variables)]
    pub fn triggers(&self, data: &PlayerData) -> (r: Vec<(ColliderType, Transform)>)
        ensures
            r@ == spec_triggers(spec_all_objects_obj(self@)),
    {
        let all = self.all_objects();
        let ghost pv = spec_pairs_view(all@);
        let n = all.len();
        proof {
            lemma_pairs_view_len(all@);
            assert(pv.subrange(0, n as int) =~= pv);
        }
        let mut out: Vec<(ColliderType, Transform)> = Vec::new();
        let mut i: usize = 0;
        while i < n
            invariant
                0 <= i <= n,
                spec_triggers(pv) == out@ + spec_triggers(pv.subrange(i as int, n as int)),
            decreases n - i,
        {
            proof {
                lemma_pairs_view_index(all@, i as int);
                assert(pv.subrange(i as int, n as int)[0] == pv[i as int]);
                assert(pv.subrange(i as int, n as int).drop_first() =~= pv.subrange(
                    i as int + 1,
                    n as int,
                ));
            }
            let ghost prev = out@;
            match &all[i].0.object_type {
                ObjectType::Trigger { col_type } => {
                    out.push((*col_type, all[i].1));
                    proof {
                        lemma_emit_step(
                            prev,
                            (pv[i as int].0.object_type->Trigger_col_type, pv[i as int].1),
                            spec_triggers(pv.subrange(i as int + 1, n as int)),
                        );
                    }
                },
                _ => {
                    proof {
                        assert(Seq::<(ColliderType, Transform)>::empty() + spec_triggers(
                            pv.subrange(i as int + 1, n as int),
                        ) =~= spec_triggers(pv.subrange(i as int + 1, n as int)));
                    }
                },
            }
            i = i + 1;
        }
        proof {
            assert(pv.subrange(n as int, n as int) =~= Seq::<(ObjectView, Transform)>::empty());
            assert(out@ + Seq::<(ColliderType, Transform)>::empty() =~= out@);
        }
        out
    }
}

/// Index of the first occurrence of `c` at or past `i`, or the length.
pub open spec fn spec_find_char(s: Seq<char>, c: char, i: int) -> int
    decreases s.len() - i,
    when 0 <= i <= s.len()
{
    if i >= s.len() {
        s.len() as int
    } else if s[i] == c {
        i
    } else {
        spec_find_char(s, c, i + 1)
    }
}

pub proof fn lemma_find_char_bounds(s: Seq<char>, c: char, i: int)
    requires
        0 <= i <= s.len(),
    ensures
        i <= spec_find_char(s, c, i) <= s.len(),
    decreases s.len() - i,
{
    if i < s.len() && s[i] != c {
        lemma_find_char_bounds(s, c, i + 1);
    }
}

/// Find the first occurrence of a character.
fn find_char(s: &str, c: char) -> (r: usize)
    ensures
        r == spec_find_char(s@, c, 0),
        r <= s@.len(),
{
    let n = s.unicode_len();
    let mut i: usize = 0;
    while i < n && s.get_char(i) != c
        invariant
            0 <= i <= n,
            n == s@.len(),
            spec_find_char(s@, c, 0) == spec_find_char(s@, c, i as int),
        decreases n - i,
    {
        i = i + 1;
    }
    i
}

/// Split a type prefix from its optional `#name` suffix.
pub open spec fn spec_split_prefix(s: Seq<char>) -> (Seq<char>, Seq<char>) {
    let idx = spec_find_char(s, '#', 0);
    if idx >= s.len() {
        (s, Seq::empty())
    } else {
        (s.subrange(0, idx), s.subrange(idx + 1, s.len() as int))
    }
}

fn split_prefix(s: &str) -> (r: (String, String))
    ensures
        (r.0@, r.1@) == spec_split_prefix(s@),
{
    let n = s.unicode_len();
    let idx = find_char(s, '#');
    if idx >= n {
        (s.to_owned(), String::new())
    } else {
        (s.substring_char(0, idx).to_owned(), s.substring_char(idx + 1, n).to_owned())
    }
}

/// The collider-shape tokens.
pub open spec fn spec_parse_col_type(s: Seq<char>) -> Result<ColliderType, ParseErrView> {
    if s == "cylinder"@ {
        Ok(ColliderType::Cylinder)
    } else if s == "cube"@ {
        Ok(ColliderType::Cube)
    } else if s == "sphere"@ {
        Ok(ColliderType::Sphere)
    } else {
        Err(ParseErrView::InvalidColliderType(s))
    }
}

fn parse_col_type(s: &str) -> (r: Result<ColliderType, ParseErr>)
    ensures
        (match r {
            Ok(v) => spec_parse_col_type(s@) == Ok::<_, ParseErrView>(v),
            Err(e) => spec_parse_col_type(s@) == Err::<ColliderType, _>(e@),
        }),
{
    if str_eq(s, "cylinder") {
        Ok(ColliderType::Cylinder)
    } else if str_eq(s, "cube") {
        Ok(ColliderType::Cube)
    } else if str_eq(s, "sphere") {
        Ok(ColliderType::Sphere)
    } else {
        Err(ParseErr::InvalidColliderType(s.to_owned()))
    }
}

/// A colour literal `colour[R,G,B]` with components scaled from 0..255
/// down to unit range.
pub open spec fn spec_parse_colour(s: Seq<char>) -> Result<V3, ParseErrView> {
    let idx = spec_find_char(s, '[', 0);
    if idx >= s.len() {
        Err(ParseErrView::NoOpenBracket)
    } else {
        let prefix = s.subrange(0, idx);
        let brackets = s.subrange(idx + 1, s.len() as int);
        if prefix != "colour"@ {
            Err(ParseErrView::InvalidPrefix(prefix))
        } else {
            match spec_split_bracket(brackets) {
                Err(e) => Err(e),
                Ok((inner, endpos)) => if spec_trim(
                    brackets.subrange(endpos, brackets.len() as int),
                ).len() != 0 {
                    Err(ParseErrView::EarlyCloseBracket)
                } else {
                    match spec_split_args(inner) {
                        Err(e) => Err(e),
                        Ok(args) => if args.len() == 3 {
                            match spec_parse_fx(args[0]) {
                                Err(e) => Err(e),
                                Ok(r) => match spec_parse_fx(args[1]) {
                                    Err(e) => Err(e),
                                    Ok(g) => match spec_parse_fx(args[2]) {
                                        Err(e) => Err(e),
                                        Ok(b) => Ok(
                                            V3 {
                                                x: r.spec_div(Fx { raw: 255000000 }),
                                                y: g.spec_div(Fx { raw: 255000000 }),
                                                z: b.spec_div(Fx { raw: 255000000 }),
                                            },
                                        ),
                                    },
                                },
                            }
                        } else if args.len() >= 4 {
                            Err(ParseErrView::ToManyArgs)
                        } else {
                            Err(ParseErrView::NotEnoughArgs)
                        },
                    }
                },
            }
        }
    }
}

fn parse_colour(s: &str) -> (res: Result<V3, ParseErr>)
    ensures
        (match res {
            Ok(v) => spec_parse_colour(s@) == Ok::<_, ParseErrView>(v),
            Err(e) => spec_parse_colour(s@) == Err::<V3, _>(e@),
        }),
{
    let n = s.unicode_len();
    let idx = find_char(s, '[');
    if idx >= n {
        return Err(ParseErr::NoOpenBracket);
    }
    let prefix = s.substring_char(0, idx);
    let brackets = s.substring_char(idx + 1, n);
    if !str_eq(prefix, "colour") {
        return Err(ParseErr::InvalidPrefix(prefix.to_owned()));
    }
    let bn = brackets.unicode_len();
    let (inner, endpos) = match split_bracket(brackets) {
        Ok(v) => v,
        Err(e) => return Err(e),
    };
    let after = trim_of(brackets.substring_char(endpos, bn));
    if after.as_str().unicode_len() != 0 {
        return Err(ParseErr::EarlyCloseBracket);
    }
    let args = match split_args(inner.as_str()) {
        Ok(v) => v,
        Err(e) => return Err(e),
    };
    if args.len() == 3 {
        let r = match parse_fx(args[0].as_str()) {
            Ok(v) => v,
            Err(e) => return Err(e),
        };
        let g = match parse_fx(args[1].as_str()) {
            Ok(v) => v,
            Err(e) => return Err(e),
        };
        let b = match parse_fx(args[2].as_str()) {
            Ok(v) => v,
            Err(e) => return Err(e),
        };
        let d = Fx { raw: 255000000 };
        Ok(V3 { x: r.div(d), y: g.div(d), z: b.div(d) })
    } else if args.len() >= 4 {
        Err(ParseErr::ToManyArgs)
    } else {
        Err(ParseErr::NotEnoughArgs)
    }
}

/// Degrees to radians: one degree in fixed point.
pub const DEG_TO_RAD_RAW: i64 = 17453;

/// The transform extractor, resumed at argument `i`: `pos`, `rot` and
/// `scale` hold the blocks seen so far (a later block of the same kind
/// wins), `kept` the arguments that are not transform blocks, in order.
/// Rotation components are given in degrees and converted to radians; a
/// single scale component applies to all three axes.
pub open spec fn spec_parse_transform_at(
    args: Seq<Seq<char>>,
    i: int,
    pos: Option<V3>,
    rot: Option<V3>,
    scale: Option<V3>,
    kept: Seq<Seq<char>>,
) -> Result<(V3, V3, V3, Seq<Seq<char>>), ParseErrView>
    decreases args.len() - i,
    when 0 <= i <= args.len()
{
    if i >= args.len() {
        let p = match pos {
            Some(v) => v,
            None => V3 { x: Fx { raw: 0 }, y: Fx { raw: 0 }, z: Fx { raw: 0 } },
        };
        let r = match rot {
            Some(v) => v,
            None => V3 { x: Fx { raw: 0 }, y: Fx { raw: 0 }, z: Fx { raw: 0 } },
        };
        let sc = match scale {
            Some(v) => v,
            None => V3 {
                x: Fx { raw: 1000000 },
                y: Fx { raw: 1000000 },
                z: Fx { raw: 1000000 },
            },
        };
        Ok((p, r, sc, kept))
    } else {
        let a = args[i];
        let idx = spec_find_char(a, '[', 0);
        if idx >= a.len() {
            spec_parse_transform_at(args, i + 1, pos, rot, scale, kept.push(a))
        } else {
            let prefix = a.subrange(0, idx);
            let brackets = a.subrange(idx + 1, a.len() as int);
            match spec_split_bracket(brackets) {
                Err(e) => Err(e),
                Ok((inner, endpos)) => if spec_trim(
                    brackets.subrange(endpos, brackets.len() as int),
                ).len() != 0 {
                    Err(ParseErrView::EarlyCloseBracket)
                } else {
                    match spec_split_args(inner) {
                        Err(e) => Err(e),
                        Ok(parts) => {
                            let p = spec_trim_start(prefix);
                            if p == "pos"@ || p == "rot"@ || p == "scale"@ {
                                if parts.len() >= 4 {
                                    Err(ParseErrView::ToManyArgs)
                                } else if parts.len() == 2 || parts.len() == 0 {
                                    Err(ParseErrView::NotEnoughArgs)
                                } else if parts.len() == 1 {
                                    if prefix != "scale"@ {
                                        Err(ParseErrView::NotEnoughArgs)
                                    } else {
                                        match spec_parse_fx(parts[0]) {
                                            Err(e) => Err(e),
                                            Ok(v) => spec_parse_transform_at(
                                                args,
                                                i + 1,
                                                pos,
                                                rot,
                                                Some(V3 { x: v, y: v, z: v }),
                                                kept,
                                            ),
                                        }
                                    }
                                } else {
                                    match spec_parse_fx(parts[0]) {
                                        Err(e) => Err(e),
                                        Ok(x) => match spec_parse_fx(parts[1]) {
                                            Err(e) => Err(e),
                                            Ok(y) => match spec_parse_fx(parts[2]) {
                                                Err(e) => Err(e),
                                                Ok(z) => {
                                                    let v = V3 { x, y, z };
                                                    if prefix == "pos"@ {
                                                        spec_parse_transform_at(
                                                            args,
                                                            i + 1,
                                                            Some(v),
                                                            rot,
                                                            scale,
                                                            kept,
                                                        )
                                                    } else if prefix == "rot"@ {
                                                        spec_parse_transform_at(
                                                            args,
                                                            i + 1,
                                                            pos,
                                                            Some(
                                                                v.spec_scale(
                                                                    Fx { raw: DEG_TO_RAD_RAW },
                                                                ),
                                                            ),
                                                            scale,
                                                            kept,
                                                        )
                                                    } else if prefix == "scale"@ {
                                                        spec_parse_transform_at(
                                                            args,
                                                            i + 1,
                                                            pos,
                                                            rot,
                                                            Some(v),
                                                            kept,
                                                        )
                                                    } else {
                                                        Err(ParseErrView::InvalidPrefix(prefix))
                                                    }
                                                },
                                            },
                                        },
                                    }
                                }
                            } else {
                                spec_parse_transform_at(args, i + 1, pos, rot, scale, kept.push(a))
                            }
                        },
                    }
                },
            }
        }
    }
}

pub open spec fn spec_parse_transform(args: Seq<Seq<char>>) -> Result<
    (V3, V3, V3, Seq<Seq<char>>),
    ParseErrView,
> {
    spec_parse_transform_at(args, 0, None, None, None, Seq::empty())
}

/// The kept arguments are drawn from the input list, so their lengths
/// respect any bound the input respects.
pub proof fn lemma_parse_transform_bounds(
    args: Seq<Seq<char>>,
    i: int,
    pos: Option<V3>,
    rot: Option<V3>,
    scale: Option<V3>,
    kept: Seq<Seq<char>>,
    bnd: int,
)
    requires
        0 <= i <= args.len(),
        forall|k: int| 0 <= k < args.len() ==> (#[trigger] args[k]).len() <= bnd,
        forall|k: int| 0 <= k < kept.len() ==> (#[trigger] kept[k]).len() <= bnd,
    ensures
        (match spec_parse_transform_at(args, i, pos, rot, scale, kept) {
            Ok((p, r, sc, kept2)) => forall|k: int|
                0 <= k < kept2.len() ==> (#[trigger] kept2[k]).len() <= bnd,
            Err(_) => true,
        }),
    decreases args.len() - i,
{
    if i < args.len() {
        let a = args[i];
        let idx = spec_find_char(a, '[', 0);
        if idx >= a.len() {
            lemma_parse_transform_bounds(args, i + 1, pos, rot, scale, kept.push(a), bnd);
        } else {
            let prefix = a.subrange(0, idx);
            let brackets = a.subrange(idx + 1, a.len() as int);
            match spec_split_bracket(brackets) {
                Err(_) => {},
                Ok((inner, endpos)) => {
                    if spec_trim(brackets.subrange(endpos, brackets.len() as int)).len() == 0 {
                        match spec_split_args(inner) {
                            Err(_) => {},
                            Ok(parts) => {
                                let p = spec_trim_start(prefix);
                                if p == "pos"@ || p == "rot"@ || p == "scale"@ {
                                    if parts.len() == 1 && prefix == "scale"@ {
                                        match spec_parse_fx(parts[0]) {
                                            Err(_) => {},
                                            Ok(v) => {
                                                lemma_parse_transform_bounds(
                                                    args,
                                                    i + 1,
                                                    pos,
                                                    rot,
                                                    Some(V3 { x: v, y: v, z: v }),
                                                    kept,
                                                    bnd,
                                                );
                                            },
                                        }
                                    } else if parts.len() == 3 {
                                        match spec_parse_fx(parts[0]) {
                                            Err(_) => {},
                                            Ok(x) => match spec_parse_fx(parts[1]) {
                                                Err(_) => {},
                                                Ok(y) => match spec_parse_fx(parts[2]) {
                                                    Err(_) => {},
                                                    Ok(z) => {
                                                        let v = V3 { x, y, z };
                                                        if prefix == "pos"@ {
                                                            lemma_parse_transform_bounds(
                                                                args,
                                                                i + 1,
                                                                Some(v),
                                                                rot,
                                                                scale,
                                                                kept,
                                                                bnd,
                                                            );
                                                        } else if prefix == "rot"@ {
                                                            lemma_parse_transform_bounds(
                                                                args,
                                                                i + 1,
                                                                pos,
                                                                Some(
                                                                    v.spec_scale(
                                                                        Fx { raw: DEG_TO_RAD_RAW },
                                                                    ),
                                                                ),
                                                                scale,
                                                                kept,
                                                                bnd,
                                                            );
                                                        } else if prefix == "scale"@ {
                                                            lemma_parse_transform_bounds(
                                                                args,
                                                                i + 1,
                                                                pos,
                                                                rot,
                                                                Some(v),
                                                                kept,
                                                                bnd,
                                                            );
                                                        }
                                                    },
                                                },
                                            },
                                        }
                                    }
                                } else {
                                    lemma_parse_transform_bounds(
                                        args,
                                        i + 1,
                                        pos,
                                        rot,
                                        scale,
                                        kept.push(a),
                                        bnd,
                                    );
                                }
                            },
                        }
                    }
                },
            }
        }
    }
}

/// Extract position, rotation and scale blocks from an argument list and
/// remove them from it, leaving the other arguments in order.
#[verifier::loop_isolation(false)]
pub fn parse_transform(args: &mut Vec<String>) -> (res: Result<(V3, V3, V3), ParseErr>)
    ensures
        (match res {
            Ok((p, r, sc)) => spec_parse_transform(old(args).deep_view()) == Ok::<
                _,
                ParseErrView,
            >((p, r, sc, final(args).deep_view())),
            Err(e) => spec_parse_transform(old(args).deep_view()) == Err::<
                (V3, V3, V3, Seq<Seq<char>>),
                _,
            >(e@),
        }),
{
    let n = args.len();
    let ghost av = args.deep_view();
    let mut pos: Option<V3> = None;
    let mut rot: Option<V3> = None;
    let mut scale: Option<V3> = None;
    let mut kept: Vec<String> = Vec::new();
    proof {
        assert(kept.deep_view() =~= Seq::<Seq<char>>::empty());
    }
    let mut i: usize = 0;
    while i < n
        invariant
            0 <= i <= n,
            args.deep_view() == av,
            n == args.len(),
            spec_parse_transform(av) == spec_parse_transform_at(
                av,
                i as int,
                pos,
                rot,
                scale,
                kept.deep_view(),
            ),
        decreases n - i,
    {
        let a = args[i].as_str();
        let an = a.unicode_len();
        let idx = find_char(a, '[');
        let ghost prev_kept = kept.deep_view();
        if idx >= an {
            kept.push(args[i].clone());
            proof {
                assert(kept.deep_view() =~= prev_kept.push(av[i as int]));
            }
        } else {
            let prefix = a.substring_char(0, idx);
            let brackets = a.substring_char(idx + 1, an);
            let bn = brackets.unicode_len();
            let (inner, endpos) = match split_bracket(brackets) {
                Ok(v) => v,
                Err(e) => return Err(e),
            };
            let after = trim_of(brackets.substring_char(endpos, bn));
            if after.as_str().unicode_len() != 0 {
                return Err(ParseErr::EarlyCloseBracket);
            }
            let parts = match split_args(inner.as_str()) {
                Ok(v) => v,
                Err(e) => return Err(e),
            };
            let pstart = crate::parse::trim_start_of(prefix);
            let is_transform = str_eq(pstart.as_str(), "pos") || str_eq(pstart.as_str(), "rot")
                || str_eq(pstart.as_str(), "scale");
            if is_transform {
                if parts.len() >= 4 {
                    return Err(ParseErr::ToManyArgs);
                } else if parts.len() == 2 || parts.len() == 0 {
                    return Err(ParseErr::NotEnoughArgs);
                } else if parts.len() == 1 {
                    if !str_eq(prefix, "scale") {
                        return Err(ParseErr::NotEnoughArgs);
                    }
                    let v = match parse_fx(parts[0].as_str()) {
                        Ok(v) => v,
                        Err(e) => return Err(e),
                    };
                    scale = Some(V3 { x: v, y: v, z: v });
                } else {
                    let x = match parse_fx(parts[0].as_str()) {
                        Ok(v) => v,
                        Err(e) => return Err(e),
                    };
                    let y = match parse_fx(parts[1].as_str()) {
                        Ok(v) => v,
                        Err(e) => return Err(e),
                    };
                    let z = match parse_fx(parts[2].as_str()) {
                        Ok(v) => v,
                        Err(e) => return Err(e),
                    };
                    let v = V3 { x, y, z };
                    if str_eq(prefix, "pos") {
                        pos = Some(v);
                    } else if str_eq(prefix, "rot") {
                        rot = Some(v.scale(Fx { raw: DEG_TO_RAD_RAW }));
                    } else if str_eq(prefix, "scale") {
                        scale = Some(v);
                    } else {
                        return Err(ParseErr::InvalidPrefix(prefix.to_owned()));
                    }
                }
            } else {
                kept.push(args[i].clone());
                proof {
                    assert(kept.deep_view() =~= prev_kept.push(av[i as int]));
                }
            }
        }
        i = i + 1;
    }
    let p = match pos {
        Some(v) => v,
        None => V3::zero(),
    };
    let r = match rot {
        Some(v) => v,
        None => V3::zero(),
    };
    let sc = match scale {
        Some(v) => v,
        None => V3::one(),
    };
    *args = kept;
    Ok((p, r, sc))
}

/// One object: `prefix('#'name)?'['args']'`, where transform blocks are
/// extracted from the arguments first and the prefix selects the node
/// kind with a fixed argument arity. An empty prefix is a group whose
/// every argument is itself an object.
pub open spec fn spec_parse_object(s: Seq<char>) -> Result<ObjectView, ParseErrView>
    decreases s.len(), 1nat, 0nat,
    via parse_object_dec
{
    let idx = spec_find_char(s, '[', 0);
    if idx >= s.len() {
        Err(ParseErrView::NoOpenBracket)
    } else {
        let prefix_full = s.subrange(0, idx);
        let brackets = s.subrange(idx + 1, s.len() as int);
        let pn = spec_split_prefix(prefix_full);
        match spec_split_bracket(brackets) {
            Err(e) => Err(e),
            Ok((args_str, rest)) => if spec_trim(
                brackets.subrange(rest, brackets.len() as int),
            ).len() != 0 {
                Err(ParseErrView::EarlyCloseBracket)
            } else {
                match spec_split_args(args_str) {
                    Err(e) => Err(e),
                    Ok(args0) => match spec_parse_transform(args0) {
                        Err(e) => Err(e),
                        Ok((pos, rot, scale, args)) => {
                            let quat = Quat::spec_from_euler_object(rot);
                            let trans = Transform::spec_from_parts(pos, scale, quat);
                            match spec_parse_object_type(pn.0, args, s.len()) {
                                Err(e) => Err(e),
                                Ok(ty) => Ok(
                                    ObjectView {
                                        name: pn.1,
                                        object_type: ty,
                                        pos,
                                        rot,
                                        quat,
                                        trans,
                                        scale,
                                    },
                                ),
                            }
                        },
                    },
                }
            },
        }
    }
}

/// Dispatch on the prefix, checking each kind's arity strictly.
pub open spec fn spec_parse_object_type(
    prefix: Seq<char>,
    args: Seq<Seq<char>>,
    slen: nat,
) -> Result<ObjectTypeView, ParseErrView>
    decreases slen, 0nat, 1nat,
    when forall|k: int| 0 <= k < args.len() ==> (#[trigger] args[k]).len() < slen
{
    if prefix == "trigger"@ {
        if args.len() >= 2 {
            Err(ParseErrView::ToManyArgs)
        } else if args.len() == 1 {
            match spec_parse_col_type(args[0]) {
                Err(e) => Err(e),
                Ok(c) => Ok(ObjectTypeView::Trigger { col_type: c }),
            }
        } else {
            Err(ParseErrView::NotEnoughArgs)
        }
    } else if prefix == "collider"@ {
        if args.len() >= 2 {
            Err(ParseErrView::ToManyArgs)
        } else if args.len() == 1 {
            match spec_parse_col_type(args[0]) {
                Err(e) => Err(e),
                Ok(c) => Ok(ObjectTypeView::Collider { col_type: c }),
            }
        } else {
            Err(ParseErrView::NotEnoughArgs)
        }
    } else if prefix == "exit"@ {
        if args.len() == 3 {
            match spec_parse_object(args[2]) {
                Err(e) => Err(e),
                Ok(col) => Ok(
                    ObjectTypeView::Exit {
                        exit_scene: args[0],
                        exit_name: args[1],
                        collider: Box::new(col),
                    },
                ),
            }
        } else if args.len() >= 4 {
            Err(ParseErrView::ToManyArgs)
        } else {
            Err(ParseErrView::NotEnoughArgs)
        }
    } else if prefix == "dialogue"@ {
        if args.len() == 2 {
            match spec_parse_object(args[1]) {
                Err(e) => Err(e),
                Ok(col) => Ok(
                    ObjectTypeView::Dialogue { script_path: args[0], collider: Box::new(col) },
                ),
            }
        } else if args.len() >= 3 {
            Err(ParseErrView::ToManyArgs)
        } else {
            Err(ParseErrView::NotEnoughArgs)
        }
    } else if prefix == "point_light"@ {
        if args.len() == 2 {
            match spec_parse_fx(args[0]) {
                Err(e) => Err(e),
                Ok(st) => match spec_parse_colour(args[1]) {
                    Err(e) => Err(e),
                    Ok(col) => Ok(ObjectTypeView::PointLight { strength: st, colour: col }),
                },
            }
        } else if args.len() >= 3 {
            Err(ParseErrView::ToManyArgs)
        } else {
            Err(ParseErrView::NotEnoughArgs)
        }
    } else if prefix == "dir_light"@ {
        if args.len() == 2 {
            match spec_parse_fx(args[0]) {
                Err(e) => Err(e),
                Ok(st) => match spec_parse_colour(args[1]) {
                    Err(e) => Err(e),
                    Ok(col) => Ok(ObjectTypeView::DirLight { strength: st, colour: col }),
                },
            }
        } else if args.len() >= 3 {
            Err(ParseErrView::ToManyArgs)
        } else {
            Err(ParseErrView::NotEnoughArgs)
        }
    } else if prefix == "image"@ {
        if args.len() == 1 {
            Ok(ObjectTypeView::Image { image_path: args[0] })
        } else if args.len() >= 2 {
            Err(ParseErrView::ToManyArgs)
        } else {
            Err(ParseErrView::NotEnoughArgs)
        }
    } else if prefix == "mesh"@ {
        if args.len() == 2 {
            Ok(ObjectTypeView::Mesh { mesh_path: args[0], image_path: args[1] })
        } else if args.len() >= 3 {
            Err(ParseErrView::ToManyArgs)
        } else {
            Err(ParseErrView::NotEnoughArgs)
        }
    } else if prefix == "if"@ {
        if args.len() == 2 {
            match crate::requirements::spec_parse_requirements(args[0]) {
                Err(e) => Err(e),
                Ok(req) => match spec_parse_object(args[1]) {
                    Err(e) => Err(e),
                    Ok(ob) => Ok(
                        ObjectTypeView::If { object: Box::new(ob), requirements: req },
                    ),
                },
            }
        } else if args.len() >= 3 {
            Err(ParseErrView::ToManyArgs)
        } else {
            Err(ParseErrView::NotEnoughArgs)
        }
    } else if prefix == Seq::<char>::empty() {
        match spec_parse_object_list(args, 0, slen) {
            Err(e) => Err(e),
            Ok(objs) => Ok(ObjectTypeView::Group { objects: objs }),
        }
    } else {
        Err(ParseErrView::InvalidPrefix(prefix))
    }
}

/// Parse every argument of a group as an object.
pub open spec fn spec_parse_object_list(list: Seq<Seq<char>>, i: int, slen: nat) -> Result<
    Seq<ObjectView>,
    ParseErrView,
>
    decreases slen, 0nat, 0nat, list.len() - i,
    when 0 <= i <= list.len() && forall|k: int|
        0 <= k < list.len() ==> (#[trigger] list[k]).len() < slen
{
    if i >= list.len() {
        Ok(Seq::empty())
    } else {
        match spec_parse_object(list[i]) {
            Err(e) => Err(e),
            Ok(o) => match spec_parse_object_list(list, i + 1, slen) {
                Err(e) => Err(e),
                Ok(rest) => Ok(seq![o] + rest),
            },
        }
    }
}

pub proof fn lemma_objects_view_push(v: Seq<Object>, x: Object)
    ensures
        spec_objects_view(v.push(x)) == spec_objects_view(v).push(spec_object_view(x)),
{
    let a = spec_objects_view(v.push(x));
    let b = spec_objects_view(v).push(spec_object_view(x));
    lemma_objects_view_len(v.push(x));
    lemma_objects_view_len(v);
    assert forall|k: int| 0 <= k < a.len() implies a[k] == b[k] by {
        lemma_objects_view_index(v.push(x), k);
        if k < v.len() {
            lemma_objects_view_index(v, k);
            assert(v.push(x)[k] == v[k]);
        } else {
            assert(v.push(x)[k] == x);
        }
    }
    assert(a =~= b);
}

/// Dispatch on an object's prefix with its post-transform arguments.
#[verifier::loop_isolation(false)]
#[verifier::rlimit(100)]
fn parse_object_type(prefix: &str, args: &Vec<String>, slen: Ghost<nat>) -> (res: Result<
    ObjectType,
    ParseErr,
>)
    requires
        forall|k: int|
            0 <= k < args.deep_view().len() ==> (#[trigger] args.deep_view()[k]).len() < slen@,
    ensures
        (match res {
            Ok(ty) => spec_parse_object_type(prefix@, args.deep_view(), slen@) == Ok::<
                _,
                ParseErrView,
            >(spec_object_type_view(ty)),
            Err(e) => spec_parse_object_type(prefix@, args.deep_view(), slen@) == Err::<
                ObjectTypeView,
                _,
            >(e@),
        }),
    decreases slen@, 0nat,
{
    let ty: ObjectType = if str_eq(prefix, "trigger") {
            if args.len() >= 2 {
                return Err(ParseErr::ToManyArgs);
            } else if args.len() == 1 {
                match parse_col_type(args[0].as_str()) {
                    Ok(c) => ObjectType::Trigger { col_type: c },
                    Err(e) => return Err(e),
                }
            } else {
                return Err(ParseErr::NotEnoughArgs);
            }
        } else if str_eq(prefix, "collider") {
            if args.len() >= 2 {
                return Err(ParseErr::ToManyArgs);
            } else if args.len() == 1 {
                match parse_col_type(args[0].as_str()) {
                    Ok(c) => ObjectType::Collider { col_type: c },
                    Err(e) => return Err(e),
                }
            } else {
                return Err(ParseErr::NotEnoughArgs);
            }
        } else if str_eq(prefix, "exit") {
            if args.len() == 3 {
                let col = match Object::from_str(args[2].as_str()) {
                    Ok(o) => o,
                    Err(e) => return Err(e),
                };
                ObjectType::Exit {
                    exit_scene: args[0].clone(),
                    exit_name: args[1].clone(),
                    collider: Box::new(col),
                }
            } else if args.len() >= 4 {
                return Err(ParseErr::ToManyArgs);
            } else {
                return Err(ParseErr::NotEnoughArgs);
            }
        } else if str_eq(prefix, "dialogue") {
            if args.len() == 2 {
                let col = match Object::from_str(args[1].as_str()) {
                    Ok(o) => o,
                    Err(e) => return Err(e),
                };
                ObjectType::Dialogue { script_path: args[0].clone(), collider: Box::new(col) }
            } else if args.len() >= 3 {
                return Err(ParseErr::ToManyArgs);
            } else {
                return Err(ParseErr::NotEnoughArgs);
            }
        } else if str_eq(prefix, "point_light") {
            if args.len() == 2 {
                let st = match parse_fx(args[0].as_str()) {
                    Ok(v) => v,
                    Err(e) => return Err(e),
                };
                let col = match parse_colour(args[1].as_str()) {
                    Ok(v) => v,
                    Err(e) => return Err(e),
                };
                ObjectType::PointLight { strength: st, colour: col }
            } else if args.len() >= 3 {
                return Err(ParseErr::ToManyArgs);
            } else {
                return Err(ParseErr::NotEnoughArgs);
            }
        } else if str_eq(prefix, "dir_light") {
            if args.len() == 2 {
                let st = match parse_fx(args[0].as_str()) {
                    Ok(v) => v,
                    Err(e) => return Err(e),
                };
                let col = match parse_colour(args[1].as_str()) {
                    Ok(v) => v,
                    Err(e) => return Err(e),
                };
                ObjectType::DirLight { strength: st, colour: col }
            } else if args.len() >= 3 {
                return Err(ParseErr::ToManyArgs);
            } else {
                return Err(ParseErr::NotEnoughArgs);
            }
        } else if str_eq(prefix, "image") {
            if args.len() == 1 {
                ObjectType::Image { image_path: args[0].clone() }
            } else if args.len() >= 2 {
                return Err(ParseErr::ToManyArgs);
            } else {
                return Err(ParseErr::NotEnoughArgs);
            }
        } else if str_eq(prefix, "mesh") {
            if args.len() == 2 {
                ObjectType::Mesh { mesh_path: args[0].clone(), image_path: args[1].clone() }
            } else if args.len() >= 3 {
                return Err(ParseErr::ToManyArgs);
            } else {
                return Err(ParseErr::NotEnoughArgs);
            }
        } else if str_eq(prefix, "if") {
            if args.len() == 2 {
                let req = match Requirements::from_str(args[0].as_str()) {
                    Ok(v) => v,
                    Err(e) => return Err(e),
                };
                let ob = match Object::from_str(args[1].as_str()) {
                    Ok(o) => o,
                    Err(e) => return Err(e),
                };
                ObjectType::If { object: Box::new(ob), requirements: req }
            } else if args.len() >= 3 {
                return Err(ParseErr::ToManyArgs);
            } else {
                return Err(ParseErr::NotEnoughArgs);
            }
        } else if prefix.unicode_len() == 0 {
            let ghost lv = args.deep_view();
            let m = args.len();
            let mut list: Vec<Object> = Vec::new();
            proof {
                assert(spec_objects_view(list@) =~= Seq::<ObjectView>::empty());
                assert(prefix@ == Seq::<char>::empty());
            }
            let mut i: usize = 0;
            while i < m
                invariant
                    0 <= i <= m,
                    m == args.len(),
                    args.deep_view() == lv,
                    (match spec_parse_object_list(lv, i as int, slen@) {
                        Ok(tail) => spec_parse_object_list(lv, 0, slen@) == Ok::<
                            _,
                            ParseErrView,
                        >(spec_objects_view(list@) + tail),
                        Err(e) => spec_parse_object_list(lv, 0, slen@) == Err::<
                            Seq<ObjectView>,
                            _,
                        >(e),
                    }),
                decreases m - i,
            {
                let o = match Object::from_str(args[i].as_str()) {
                    Ok(o) => o,
                    Err(e) => return Err(e),
                };
                let ghost prevl = list@;
                list.push(o);
                proof {
                    lemma_objects_view_push(prevl, list@[prevl.len() as int]);
                    assert(spec_objects_view(prevl) + (seq![
                        spec_object_view(list@[prevl.len() as int]),
                    ] + (match spec_parse_object_list(lv, i as int + 1, slen@) {
                        Ok(t) => t,
                        Err(_) => Seq::empty(),
                    })) =~= spec_objects_view(list@) + (match spec_parse_object_list(
                        lv,
                        i as int + 1,
                        slen@,
                    ) {
                        Ok(t) => t,
                        Err(_) => Seq::empty(),
                    }));
                }
                i = i + 1;
            }
            proof {
                assert(spec_objects_view(list@) + Seq::<ObjectView>::empty() =~= spec_objects_view(
                    list@,
                ));
            }
            ObjectType::Group { objects: list }
        } else {
            return Err(ParseErr::InvalidPrefix(prefix.to_owned()));
        };
    Ok(ty)
}

impl Object {
    /// Parse one object.
    #[verifier::loop_isolation(false)]
    #[verifier::rlimit(100)]
    pub fn from_str(s: &str) -> (res: Result<Object, ParseErr>)
        ensures
            (match res {
                Ok(o) => spec_parse_object(s@) == Ok::<_, ParseErrView>(o@),
                Err(e) => spec_parse_object(s@) == Err::<ObjectView, _>(e@),
            }),
        decreases s@.len(), 1nat,
    {
        let n = s.unicode_len();
        let idx = find_char(s, '[');
        if idx >= n {
            return Err(ParseErr::NoOpenBracket);
        }
        let prefix_full = s.substring_char(0, idx);
        let brackets = s.substring_char(idx + 1, n);
        let bn = brackets.unicode_len();
        let (prefix, name) = split_prefix(prefix_full);
        let (args_str, rest) = match split_bracket(brackets) {
            Ok(v) => v,
            Err(e) => return Err(e),
        };
        let after = trim_of(brackets.substring_char(rest, bn));
        if after.as_str().unicode_len() != 0 {
            return Err(ParseErr::EarlyCloseBracket);
        }
        let mut args = match split_args(args_str.as_str()) {
            Ok(v) => v,
            Err(e) => return Err(e),
        };
        let ghost args0v = args.deep_view();
        let (pos, rot, scale) = match parse_transform(&mut args) {
            Ok(v) => v,
            Err(e) => return Err(e),
        };
        let quat = Quat::from_euler_object(rot);
        let trans = Transform::from_parts(pos, scale, quat);
        proof {
            lemma_parse_transform_bounds(
                args0v,
                0,
                None,
                None,
                None,
                Seq::empty(),
                args_str@.len() as int,
            );
            assert(forall|k: int|
                0 <= k < args.deep_view().len() ==> (#[trigger] args.deep_view()[k]).len()
                    < s@.len());
        }
        let ty = match parse_object_type(prefix.as_str(), &args, Ghost(s@.len())) {
            Ok(v) => v,
            Err(e) => return Err(e),
        };
        Ok(Object { name, object_type: ty, pos, rot, quat, trans, scale })
    }
}

/// The camera block of a scene: `camera[...]` whose arguments are
/// exactly the transform blocks. `scene_prefix` is only quoted in the
/// error for a wrong camera prefix.
pub open spec fn spec_parse_camera(camera: Seq<char>, scene_prefix: Seq<char>) -> Result<
    (V3, V3, V3),
    ParseErrView,
> {
    let cidx = spec_find_char(camera, '[', 0);
    if cidx >= camera.len() {
        Err(ParseErrView::NoOpenBracket)
    } else {
        let cam_prefix = camera.subrange(0, cidx);
        let cam_bracket = camera.subrange(cidx + 1, camera.len() as int);
        if spec_trim(cam_prefix) != "camera"@ {
            Err(ParseErrView::InvalidPrefix(scene_prefix))
        } else {
            match spec_split_bracket(cam_bracket) {
                Err(e) => Err(e),
                Ok((cam_args_str, crest)) => if spec_trim(
                    cam_bracket.subrange(crest, cam_bracket.len() as int),
                ).len() != 0 {
                    Err(ParseErrView::EarlyCloseBracket)
                } else {
                    match spec_split_args(cam_args_str) {
                        Err(e) => Err(e),
                        Ok(cam_args) => match spec_parse_transform(cam_args) {
                            Err(e) => Err(e),
                            Ok((p, r, sc, leftover)) => if leftover.len() != 0 {
                                Err(ParseErrView::ToManyArgs)
                            } else {
                                Ok((p, r, sc))
                            },
                        },
                    }
                },
            }
        }
    }
}

/// The scene's objects: every argument after the camera block.
pub open spec fn spec_parse_scene_objects(args: Seq<Seq<char>>, i: int) -> Result<
    Seq<ObjectView>,
    ParseErrView,
>
    decreases args.len() - i,
    when 0 <= i <= args.len()
{
    if i >= args.len() {
        Ok(Seq::empty())
    } else {
        match spec_parse_object(args[i]) {
            Err(e) => Err(e),
            Ok(o) => match spec_parse_scene_objects(args, i + 1) {
                Err(e) => Err(e),
                Ok(rest) => Ok(seq![o] + rest),
            },
        }
    }
}

/// One scene: an optional `#name`, then a bracketed list whose first
/// argument is the camera block and whose remaining arguments are the
/// scene's objects. The camera is built with the inverse transform
/// convention while objects use the forward one.
pub open spec fn spec_parse_scene(s: Seq<char>) -> Result<SceneView, ParseErrView> {
    let idx = spec_find_char(s, '[', 0);
    if idx >= s.len() {
        Err(ParseErrView::NoOpenBracket)
    } else {
        let prefix_t = spec_trim_start(s.subrange(0, idx));
        let brackets = s.subrange(idx + 1, s.len() as int);
        let pn = spec_split_prefix(prefix_t);
        if pn.0.len() != 0 {
            Err(ParseErrView::InvalidPrefix(pn.0))
        } else {
            match spec_split_bracket(brackets) {
                Err(e) => Err(e),
                Ok((args_str, rest)) => if spec_trim(
                    brackets.subrange(rest, brackets.len() as int),
                ).len() != 0 {
                    Err(ParseErrView::EarlyCloseBracket)
                } else {
                    match spec_split_args(args_str) {
                        Err(e) => Err(e),
                        Ok(args) => if args.len() == 0 {
                            Err(ParseErrView::NotEnoughArgs)
                        } else {
                            match spec_parse_camera(args[0], pn.0) {
                                Err(e) => Err(e),
                                Ok((cam_pos, cam_rot, cam_scale)) => match
                                    spec_parse_scene_objects(args, 1) {
                                    Err(e) => Err(e),
                                    Ok(objs) => {
                                        let cam_quat = Quat::spec_from_euler_camera(cam_rot);
                                        let cam_trans = Transform::spec_camera_from_parts(
                                            cam_pos,
                                            cam_scale,
                                            cam_quat,
                                        );
                                        Ok(
                                            SceneView {
                                                name: pn.1,
                                                objects: objs,
                                                cam_pos,
                                                cam_rot,
                                                cam_quat,
                                                cam_trans,
                                                cam_scale,
                                            },
                                        )
                                    },
                                },
                            }
                        },
                    }
                },
            }
        }
    }
}

/// Every scene of a file, split on top-level commas and newlines.
pub open spec fn spec_parse_scenes(s: Seq<char>) -> Result<Seq<SceneView>, ParseErrView> {
    match spec_split_args(s) {
        Err(e) => Err(e),
        Ok(args) => spec_parse_scene_list(args, 0),
    }
}

pub open spec fn spec_parse_scene_list(args: Seq<Seq<char>>, i: int) -> Result<
    Seq<SceneView>,
    ParseErrView,
>
    decreases args.len() - i,
    when 0 <= i <= args.len()
{
    if i >= args.len() {
        Ok(Seq::empty())
    } else {
        match spec_parse_scene(args[i]) {
            Err(e) => Err(e),
            Ok(sc) => match spec_parse_scene_list(args, i + 1) {
                Err(e) => Err(e),
                Ok(rest) => Ok(seq![sc] + rest),
            },
        }
    }
}

fn parse_camera(camera: &str, scene_prefix: &str) -> (res: Result<(V3, V3, V3), ParseErr>)
    ensures
        (match res {
            Ok(v) => spec_parse_camera(camera@, scene_prefix@) == Ok::<_, ParseErrView>(v),
            Err(e) => spec_parse_camera(camera@, scene_prefix@) == Err::<(V3, V3, V3), _>(e@),
        }),
{
    let cn = camera.unicode_len();
    let cidx = find_char(camera, '[');
    if cidx >= cn {
        return Err(ParseErr::NoOpenBracket);
    }
    let cam_prefix = camera.substring_char(0, cidx);
    let cam_bracket = camera.substring_char(cidx + 1, cn);
    let cbn = cam_bracket.unicode_len();
    let trimmed_prefix = trim_of(cam_prefix);
    if !str_eq(trimmed_prefix.as_str(), "camera") {
        return Err(ParseErr::InvalidPrefix(scene_prefix.to_owned()));
    }
    let (cam_args_str, crest) = match split_bracket(cam_bracket) {
        Ok(v) => v,
        Err(e) => return Err(e),
    };
    let after = trim_of(cam_bracket.substring_char(crest, cbn));
    if after.as_str().unicode_len() != 0 {
        return Err(ParseErr::EarlyCloseBracket);
    }
    let mut cam_args = match split_args(cam_args_str.as_str()) {
        Ok(v) => v,
        Err(e) => return Err(e),
    };
    let (p, r, sc) = match parse_transform(&mut cam_args) {
        Ok(v) => v,
        Err(e) => return Err(e),
    };
    if cam_args.len() != 0 {
        proof {
            assert(cam_args.deep_view().len() == cam_args.len());
        }
        return Err(ParseErr::ToManyArgs);
    }
    proof {
        assert(cam_args.deep_view().len() == cam_args.len());
    }
    Ok((p, r, sc))
}

impl Scene {
    /// Parse one scene.
    #[verifier::loop_isolation(false)]
    #[verifier::rlimit(100)]
    pub fn from_str(s: &str) -> (res: Result<Scene, ParseErr>)
        ensures
            (match res {
                Ok(sc) => spec_parse_scene(s@) == Ok::<_, ParseErrView>(sc@),
                Err(e) => spec_parse_scene(s@) == Err::<SceneView, _>(e@),
            }),
    {
        let n = s.unicode_len();
        let idx = find_char(s, '[');
        if idx >= n {
            return Err(ParseErr::NoOpenBracket);
        }
        let prefix_t = crate::parse::trim_start_of(s.substring_char(0, idx));
        let brackets = s.substring_char(idx + 1, n);
        let bn = brackets.unicode_len();
        let (prefix, name) = split_prefix(prefix_t.as_str());
        if prefix.as_str().unicode_len() != 0 {
            return Err(ParseErr::InvalidPrefix(prefix));
        }
        let (args_str, rest) = match split_bracket(brackets) {
            Ok(v) => v,
            Err(e) => return Err(e),
        };
        let after = trim_of(brackets.substring_char(rest, bn));
        if after.as_str().unicode_len() != 0 {
            return Err(ParseErr::EarlyCloseBracket);
        }
        let args = match split_args(args_str.as_str()) {
            Ok(v) => v,
            Err(e) => return Err(e),
        };
        if args.len() == 0 {
            proof {
                assert(args.deep_view().len() == 0);
            }
            return Err(ParseErr::NotEnoughArgs);
        }
        proof {
            assert(args.deep_view().len() == args.len());
        }
        let (cam_pos, cam_rot, cam_scale) = match parse_camera(args[0].as_str(), prefix.as_str()) {
            Ok(v) => v,
            Err(e) => return Err(e),
        };
        let ghost av = args.deep_view();
        let m = args.len();
        let mut objects: Vec<Object> = Vec::new();
        proof {
            assert(spec_objects_view(objects@) =~= Seq::<ObjectView>::empty());
        }
        let mut i: usize = 1;
        while i < m
            invariant
                1 <= i <= m,
                m == args.len(),
                args.deep_view() == av,
                (match spec_parse_scene_objects(av, i as int) {
                    Ok(tail) => spec_parse_scene_objects(av, 1) == Ok::<_, ParseErrView>(
                        spec_objects_view(objects@) + tail,
                    ),
                    Err(e) => spec_parse_scene_objects(av, 1) == Err::<Seq<ObjectView>, _>(e),
                }),
            decreases m - i,
        {
            let o = match Object::from_str(args[i].as_str()) {
                Ok(o) => o,
                Err(e) => return Err(e),
            };
            let ghost prevl = objects@;
            objects.push(o);
            proof {
                lemma_objects_view_push(prevl, objects@[prevl.len() as int]);
                assert(spec_objects_view(prevl) + (seq![
                    spec_object_view(objects@[prevl.len() as int]),
                ] + (match spec_parse_scene_objects(av, i as int + 1) {
                    Ok(t) => t,
                    Err(_) => Seq::empty(),
                })) =~= spec_objects_view(objects@) + (match spec_parse_scene_objects(
                    av,
                    i as int + 1,
                ) {
                    Ok(t) => t,
                    Err(_) => Seq::empty(),
                }));
            }
            i = i + 1;
        }
        proof {
            assert(spec_objects_view(objects@) + Seq::<ObjectView>::empty() =~= spec_objects_view(
                objects@,
            ));
        }
        let cam_quat = Quat::from_euler_camera(cam_rot);
        let cam_trans = Transform::camera_from_parts(cam_pos, cam_scale, cam_quat);
        Ok(Scene { name, objects, cam_pos, cam_rot, cam_quat, cam_trans, cam_scale })
    }
}

pub proof fn lemma_scenes_view_len(list: Seq<Scene>)
    ensures
        spec_scenes_view(list).len() == list.len(),
    decreases list.len(),
{
    if list.len() > 0 {
        lemma_scenes_view_len(list.drop_first());
    }
}

pub proof fn lemma_scenes_view_index(list: Seq<Scene>, i: int)
    requires
        0 <= i < list.len(),
    ensures
        spec_scenes_view(list).len() == list.len(),
        spec_scenes_view(list)[i] == list[i]@,
    decreases list.len(),
{
    lemma_scenes_view_len(list);
    if i > 0 {
        lemma_scenes_view_index(list.drop_first(), i - 1);
    }
}

pub proof fn lemma_scenes_view_push(list: Seq<Scene>, x: Scene)
    ensures
        spec_scenes_view(list.push(x)) == spec_scenes_view(list).push(x@),
{
    let a = spec_scenes_view(list.push(x));
    let b = spec_scenes_view(list).push(x@);
    lemma_scenes_view_len(list.push(x));
    lemma_scenes_view_len(list);
    assert forall|k: int| 0 <= k < a.len() implies a[k] == b[k] by {
        lemma_scenes_view_index(list.push(x), k);
        if k < list.len() {
            lemma_scenes_view_index(list, k);
            assert(list.push(x)[k] == list[k]);
        } else {
            assert(list.push(x)[k] == x);
        }
    }
    assert(a =~= b);
}

/// The position of the last scene carrying a name, or a negative value
/// when no scene does.
pub open spec fn spec_last_index_of_name(list: Seq<SceneView>, name: Seq<char>) -> int
    decreases list.len(),
{
    if list.len() == 0 {
        -1
    } else if list[list.len() - 1].name == name {
        list.len() - 1
    } else {
        spec_last_index_of_name(list.drop_last(), name)
    }
}

impl GameScenes {
    /// Parse a whole scene file.
    #[verifier::loop_isolation(false)]
    pub fn from_str(s: &str) -> (res: Result<GameScenes, ParseErr>)
        ensures
            (match res {
                Ok(g) => spec_parse_scenes(s@) == Ok::<_, ParseErrView>(g@),
                Err(e) => spec_parse_scenes(s@) == Err::<Seq<SceneView>, _>(e@),
            }),
    {
        let args = match split_args(s) {
            Ok(v) => v,
            Err(e) => return Err(e),
        };
        let ghost av = args.deep_view();
        let m = args.len();
        proof {
            assert(av.len() == m);
        }
        let mut scenes: Vec<Scene> = Vec::new();
        proof {
            assert(spec_scenes_view(scenes@) =~= Seq::<SceneView>::empty());
        }
        let mut i: usize = 0;
        while i < m
            invariant
                0 <= i <= m,
                m == args.len(),
                args.deep_view() == av,
                (match spec_parse_scene_list(av, i as int) {
                    Ok(tail) => spec_parse_scene_list(av, 0) == Ok::<_, ParseErrView>(
                        spec_scenes_view(scenes@) + tail,
                    ),
                    Err(e) => spec_parse_scene_list(av, 0) == Err::<Seq<SceneView>, _>(e),
                }),
            decreases m - i,
        {
            let sc = match Scene::from_str(args[i].as_str()) {
                Ok(v) => v,
                Err(e) => return Err(e),
            };
            let ghost prevl = scenes@;
            scenes.push(sc);
            proof {
                lemma_scenes_view_push(prevl, scenes@[prevl.len() as int]);
                assert(spec_scenes_view(prevl) + (seq![scenes@[prevl.len() as int]@] + (
                match spec_parse_scene_list(av, i as int + 1) {
                    Ok(t) => t,
                    Err(_) => Seq::empty(),
                })) =~= spec_scenes_view(scenes@) + (match spec_parse_scene_list(
                    av,
                    i as int + 1,
                ) {
                    Ok(t) => t,
                    Err(_) => Seq::empty(),
                }));
            }
            i = i + 1;
        }
        proof {
            assert(spec_scenes_view(scenes@) + Seq::<SceneView>::empty() =~= spec_scenes_view(
                scenes@,
            ));
        }
        Ok(GameScenes { scenes })
    }

    /// The number of scenes.
    pub fn len(&self) -> (r: usize)
        ensures
            r == self@.len(),
    {
        proof {
            lemma_scenes_view_len(self.scenes@);
        }
        self.scenes.len()
    }

    /// The scene at a position.
    pub fn scene(&self, i: usize) -> (r: &Scene)
        requires
            i < self@.len(),
        ensures
            r@ == self@[i as int],
    {
        proof {
            lemma_scenes_view_len(self.scenes@);
            lemma_scenes_view_index(self.scenes@, i as int);
        }
        &self.scenes[i]
    }

    /// The position of the scene with a name; as names are keys, a later
    /// scene shadows an earlier one with the same name.
    #[verifier::loop_isolation(false)]
    #[verifier::rlimit(100)]
    pub fn get_index(&self, name: &str) -> (r: usize)
        requires
            exists|k: int| 0 <= k < self@.len() && (#[trigger] self@[k]).name == name@,
        ensures
            r < self@.len(),
            self@[r as int].name == name@,
            r == spec_last_index_of_name(self@, name@),
    {
        let n = self.scenes.len();
        proof {
            lemma_scenes_view_len(self.scenes@);
            assert(self@.subrange(0, n as int) =~= self@);
        }
        let mut j: usize = n;
        while j > 0
            invariant
                0 <= j <= n,
                spec_last_index_of_name(self@, name@) == spec_last_index_of_name(
                    self@.subrange(0, j as int),
                    name@,
                ),
                forall|k: int| j <= k < n ==> (#[trigger] self@[k]).name != name@,
            decreases j,
        {
            j = j - 1;
            proof {
                lemma_scenes_view_index(self.scenes@, j as int);
            }
            if str_eq(self.scenes[j].name.as_str(), name) {
                proof {
                    assert(self@.subrange(0, j as int + 1).last() == self@[j as int]);
                }
                return j;
            }
            proof {
                assert(self@.subrange(0, j as int + 1).drop_last() =~= self@.subrange(
                    0,
                    j as int,
                ));
            }
        }
        proof {
            assert(self@.subrange(0, 0) =~= Seq::<SceneView>::empty());
            let k = choose|k: int| 0 <= k < self@.len() && (#[trigger] self@[k]).name == name@;
            assert(false);
        }
        0
    }
}

#[via_fn]
proof fn parse_object_dec(s: Seq<char>) {
    let idx = spec_find_char(s, '[', 0);
    lemma_find_char_bounds(s, '[', 0);
    if idx < s.len() {
        let brackets = s.subrange(idx + 1, s.len() as int);
        lemma_split_bracket_bounds(brackets);
        match spec_split_bracket(brackets) {
            Err(_) => {},
            Ok((args_str, rest)) => {
                lemma_split_args_bounds(args_str);
                match spec_split_args(args_str) {
                    Err(_) => {},
                    Ok(args0) => {
                        lemma_parse_transform_bounds(
                            args0,
                            0,
                            None,
                            None,
                            None,
                            Seq::empty(),
                            args_str.len() as int,
                        );
                    },
                }
            },
        }
    }
}

/// A group holding a conditional node that wraps a mesh: when the
/// condition fails, the validity-aware traversal keeps the conditional
/// node itself but excludes the mesh, while the plain traversal always
/// includes the mesh under its accumulated transform.
pub proof fn lemma_if_gates_subtree(g: ObjectView, ifn: ObjectView, mesh: ObjectView, p: PlayerView)
    requires
        g.object_type == (ObjectTypeView::Group { objects: seq![ifn] }),
        ifn.object_type matches ObjectTypeView::If { object, requirements } && *object == mesh
            && !spec_eval_reqs(requirements, p),
        mesh.object_type is Mesh,
    ensures
        spec_valid_objects_obj(g, p) == seq![
            (ifn, g.trans.spec_compose(ifn.trans)),
            (g, g.trans),
        ],
        spec_all_objects_obj(g) == seq![
            (mesh, g.trans.spec_compose(ifn.trans).spec_compose(mesh.trans)),
            (ifn, g.trans.spec_compose(ifn.trans)),
            (g, g.trans),
        ],
{
    let tg = g.trans;
    let tif = tg.spec_compose(ifn.trans);
    let tm = tif.spec_compose(mesh.trans);
    let l = seq![ifn];
    assert(l.drop_first() =~= Seq::<ObjectView>::empty());

    assert(spec_valid_with_parent(ifn, tg, p) =~= seq![(ifn, tif)]);
    assert(spec_valid_list(Seq::<ObjectView>::empty(), tg, p)
        =~= Seq::<(ObjectView, Transform)>::empty());
    assert(seq![(ifn, tif)] + Seq::<(ObjectView, Transform)>::empty() =~= seq![(ifn, tif)]);
    assert(spec_valid_list(l, tg, p) =~= seq![(ifn, tif)]);
    assert(spec_valid_objects_obj(g, p) =~= seq![(ifn, tif), (g, tg)]);

    assert(spec_all_with_parent(mesh, tif) =~= seq![(mesh, tm)]);
    assert(spec_all_with_parent(ifn, tg) =~= seq![(mesh, tm), (ifn, tif)]);
    assert(spec_all_list(Seq::<ObjectView>::empty(), tg)
        =~= Seq::<(ObjectView, Transform)>::empty());
    assert(seq![(mesh, tm), (ifn, tif)] + Seq::<(ObjectView, Transform)>::empty() =~= seq![
        (mesh, tm),
        (ifn, tif),
    ]);
    assert(spec_all_list(l, tg) =~= seq![(mesh, tm), (ifn, tif)]);
    assert(spec_all_objects_obj(g) =~= seq![(mesh, tm), (ifn, tif), (g, tg)]);
}

} // verus!
