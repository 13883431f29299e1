use cgmath::{Deg, Matrix4, Rotation3, SquareMatrix};
use scenegraph::model::Model;
use scenegraph::renderer::instance::{Instance, InstanceRaw};
use scenegraph::renderer::resource::SyncError;
use scenegraph::scene::jobs::{SceneError, SyncJob};
use scenegraph::scene::scenenode::{Edit, SceneNode};
use scenegraph::scene::Scene;
use scenegraph::transform::{Factor, Quaternion, Transform, Vector3, Vector4};
use std::time::Duration;

fn bits(x: f32) -> u32 {
    x.to_bits()
}

fn scalar(bits: u32) -> f32 {
    f32::from_bits(bits)
}

fn quaternion(q: cgmath::Quaternion<f32>) -> Quaternion {
    Quaternion { s: bits(q.s), v: Vector3::new(bits(q.v.x), bits(q.v.y), bits(q.v.z)) }
}

fn cg(q: Quaternion) -> cgmath::Quaternion<f32> {
    cgmath::Quaternion::new(scalar(q.s), scalar(q.v.x), scalar(q.v.y), scalar(q.v.z))
}

fn compose(a: Quaternion, b: Quaternion) -> Quaternion {
    quaternion(cg(a) * cg(b))
}

fn matrix_of(factor: &Factor) -> Matrix4<f32> {
    match factor {
        Factor::Rotation(q) => Matrix4::from(cg(*q)),
        Factor::Translation(v) => {
            Matrix4::from_translation(cgmath::Vector3::new(scalar(v.x), scalar(v.y), scalar(v.z)))
        }
        Factor::Scale(s) => Matrix4::from_scale(scalar(*s)),
    }
}

fn column(v: cgmath::Vector4<f32>) -> Vector4 {
    Vector4 { x: bits(v.x), y: bits(v.y), z: bits(v.z), w: bits(v.w) }
}

fn bits_of(m: Matrix4<f32>) -> scenegraph::transform::Matrix4 {
    scenegraph::transform::Matrix4 { x: column(m.x), y: column(m.y), z: column(m.z), w: column(m.w) }
}

fn matrix(m: scenegraph::transform::Matrix4) -> Matrix4<f32> {
    Matrix4::new(
        scalar(m.x.x), scalar(m.x.y), scalar(m.x.z), scalar(m.x.w),
        scalar(m.y.x), scalar(m.y.y), scalar(m.y.z), scalar(m.y.w),
        scalar(m.z.x), scalar(m.z.y), scalar(m.z.z), scalar(m.z.w),
        scalar(m.w.x), scalar(m.w.y), scalar(m.w.z), scalar(m.w.w),
    )
}

fn raw(m: Matrix4<f32>) -> InstanceRaw {
    InstanceRaw { model: bits_of(m), inverse_model: bits_of(m.invert().unwrap()) }
}

fn eval(t: &Transform) -> InstanceRaw {
    let mut product = Matrix4::identity();
    for factor in &t.factors {
        product = product * matrix_of(factor);
    }
    raw(product)
}

fn shift(record: InstanceRaw) -> InstanceRaw {
    let mut m = matrix(record.model);
    m.w.x += 1.0;
    raw(m)
}

fn translation(record: InstanceRaw) -> (f32, f32, f32) {
    (scalar(record.model.w.x), scalar(record.model.w.y), scalar(record.model.w.z))
}

fn frame() -> Duration {
    Duration::from_millis(16)
}

fn flags(node: &SceneNode) -> Vec<bool> {
    let mut out = vec![node.changed];
    for child in &node.children {
        out.extend(flags(child));
    }
    out
}

#[test]
fn empty_scene_has_a_bare_graph() {
    let scene = Scene::empty();
    assert_eq!(scene.num_models(), 0);
    assert_eq!(scene.num_jobs(), 0);
    assert!(scene.graph().children.is_empty());
    assert_eq!(scene.graph().model_id, None);
    assert!(scene.draw_iteration().is_empty());
}

#[test]
fn add_model_returns_ids_in_order() {
    let mut scene = Scene::empty();
    assert_eq!(scene.add_model(Model::load(&eval)), 0);
    assert_eq!(scene.add_model(Model::load_sized(4)), 1);
    assert_eq!(scene.add_model(Model::load(&eval)), 2);
    assert_eq!(scene.num_models(), 3);
    assert_eq!(scene.model(1).get_gpu_length(), 4);
}

#[test]
fn end_to_end() {
    let mut scene = Scene::empty();
    assert_eq!(scene.add_model(Model::load(&eval)), 0);
    assert_eq!(scene.add_instance(0, &eval, &shift), 1);
    let syncs = scene.update(frame(), &eval).unwrap();
    assert_eq!(scene.model(0).get_num_instances(), 2);
    assert_eq!(syncs.len(), 1);
    let (model_id, plan) = &syncs[0];
    assert_eq!(*model_id, 0);
    assert_eq!(plan.recreate, Some(2));
    assert_eq!(plan.records.len(), 2);
    assert_eq!(Some(plan.records[0]), scene.model(0).instance_at(0));
    assert_eq!(Some(plan.records[1]), scene.model(0).instance_at(1));
    assert_eq!(scene.model(0).get_gpu_length(), 2);
    assert_eq!(scene.num_jobs(), 0);
}

#[test]
fn add_instance_makes_a_request() {
    let mut scene = Scene::empty();
    scene.add_model(Model::load(&eval));
    scene.add_model(Model::load(&eval));
    assert_eq!(scene.add_instance(1, &eval, &shift), 1);
    assert_eq!(scene.add_instance(1, &eval, &shift), 2);
    assert_eq!(scene.num_jobs(), 2);
    assert_eq!(scene.model(0).get_num_instances(), 1);
    assert_eq!(scene.model(1).get_num_instances(), 3);
    let syncs = scene.sync_scene_gpu().unwrap();
    assert_eq!(syncs.len(), 2);
    assert_eq!(syncs[0].0, 1);
    assert_eq!(syncs[0].1.recreate, Some(4));
    assert_eq!(syncs[1].0, 1);
    assert_eq!(syncs[1].1.recreate, None);
    assert_eq!(syncs[1].1.records, syncs[0].1.records);
    assert_eq!(scene.num_jobs(), 0);
}

#[test]
fn update_writes_world_transforms_into_the_slots() {
    let mut scene = Scene::empty();
    scene.add_model(Model::load(&eval));
    scene.make_instance_child_of(0, 0, vec![]);
    let syncs = scene.update(frame(), &eval).unwrap();
    // a new instance node stands one unit along x
    assert_eq!(translation(scene.model(0).instance_at(0).unwrap()), (1.0, 0.0, 0.0));
    assert_eq!(syncs.len(), 1);
    assert_eq!(syncs[0].1.recreate, None);
    assert_eq!(Some(syncs[0].1.records[0]), scene.model(0).instance_at(0));
    assert_eq!(flags(scene.graph()), vec![false, false]);
}

#[test]
fn update_makes_one_request_for_each_touched_model() {
    let mut scene = Scene::empty();
    scene.add_model(Model::load(&eval));
    scene.add_model(Model::load(&eval));
    scene.add_model(Model::load(&eval));
    scene.add_instance(2, &eval, &shift);
    scene.sync_scene_gpu().unwrap();
    // two instances of model 2 change, one of model 0, none of model 1
    scene.make_instance_child_of(2, 0, vec![]);
    scene.make_instance_child_of(2, 1, vec![0]);
    scene.make_instance_child_of(0, 0, vec![]);
    scene.collect_sync_jobs(&eval);
    assert_eq!(scene.num_jobs(), 2);
    let syncs = scene.sync_scene_gpu().unwrap();
    let models: Vec<usize> = syncs.iter().map(|s| s.0).collect();
    assert_eq!(models, vec![0, 2]);
    assert_eq!(syncs[1].1.records.len(), 2);
    assert_eq!(translation(syncs[1].1.records[0]), (1.0, 0.0, 0.0));
    assert_eq!(translation(syncs[1].1.records[1]), (2.0, 0.0, 0.0));
    assert_eq!(translation(syncs[0].1.records[0]), (1.0, 0.0, 0.0));
}

#[test]
fn a_change_of_a_grouping_node_makes_no_request() {
    let mut scene = Scene::empty();
    scene.add_model(Model::load(&eval));
    scene.edit_node(&[], Edit::AddChild(SceneNode::default()));
    let changes = scene.collect_changes();
    assert!(changes.is_empty());
    assert_eq!(flags(scene.graph()), vec![false, false]);
    scene.set_scale(bits(2.0));
    assert_eq!(flags(scene.graph()), vec![true, true]);
    let syncs = scene.update(frame(), &eval).unwrap();
    assert!(syncs.is_empty());
    assert_eq!(scene.num_jobs(), 0);
}

#[test]
fn update_with_nothing_changed_does_nothing() {
    let mut scene = Scene::empty();
    scene.add_model(Model::load(&eval));
    scene.make_instance_child_of(0, 0, vec![]);
    scene.update(frame(), &eval).unwrap();
    let before = scene.model(0).instance_at(0);
    let syncs = scene.update(frame(), &eval).unwrap();
    assert!(syncs.is_empty());
    assert_eq!(scene.model(0).instance_at(0), before);
}

#[test]
fn the_top_of_the_graph_counts_twice() {
    let mut scene = Scene::empty();
    scene.add_model(Model::load(&eval));
    scene.make_instance_child_of(0, 0, vec![]);
    scene.set_scale(bits(3.0));
    let changes = scene.collect_changes();
    assert_eq!(changes.len(), 1);
    assert_eq!((changes[0].0, changes[0].1), (0, 0));
    assert_eq!(changes[0].2.factors.len(), 9);
    assert_eq!(changes[0].2.factors[2], Factor::Scale(bits(3.0)));
    assert_eq!(changes[0].2.factors[5], Factor::Scale(bits(3.0)));
    assert_eq!(eval(&changes[0].2).model.w.x, bits(9.0));
}

#[test]
fn apply_changes_skips_instances_that_are_not_there() {
    let mut scene = Scene::empty();
    scene.add_model(Model::load(&eval));
    scene.add_model(Model::load(&eval));
    let record = raw(Matrix4::from_scale(2.0));
    let other = raw(Matrix4::from_scale(4.0));
    scene.apply_changes(vec![(1, 0, record), (1, 5, other), (1, 0, other)]);
    assert_eq!(scene.model(1).instance_at(0), Some(other));
    assert_eq!(scene.model(1).get_num_instances(), 1);
    assert_eq!(scene.model(0).instance_at(0), Some(eval(&Instance::default().transform())));
    assert_eq!(scene.num_jobs(), 1);
    let syncs = scene.sync_scene_gpu().unwrap();
    assert_eq!(syncs.len(), 1);
    assert_eq!(syncs[0].0, 1);
    assert_eq!(syncs[0].1.records, vec![other]);
}

#[test]
fn a_model_without_room_fails_the_update_and_nothing_is_synced() {
    let mut scene = Scene::empty();
    scene.add_model(Model::load(&eval));
    scene.add_model(Model::load_sized(0));
    scene.add_instance(0, &eval, &shift);
    scene.add_instance(1, &eval, &shift);
    let error = scene.update(frame(), &eval).unwrap_err();
    assert_eq!(error, SceneError { model_id: 1, error: SyncError::ZeroCapacity });
    // nothing was carried out: the first model has not grown, the requests wait
    assert_eq!(scene.model(0).get_gpu_length(), 1);
    assert_eq!(scene.num_jobs(), 2);
    assert_eq!(scene.sync_scene_gpu().unwrap_err(), error);
}

#[test]
fn a_request_of_another_kind_makes_the_scene_unfit_for_update() {
    let kinds = [
        SyncJob::Vertex,
        SyncJob::Index,
        SyncJob::Animation,
        SyncJob::Instances { model_id: 0, instance_ids: 0..1 },
    ];
    for job in kinds {
        let mut scene = Scene::empty();
        scene.add_model(Model::load(&eval));
        scene.add_instance(0, &eval, &shift);
        assert!(scene.is_well_formed());
        scene.enqueue(job);
        assert_eq!(scene.num_jobs(), 2);
        assert!(!scene.is_well_formed());
    }
}

#[test]
fn a_request_for_records_keeps_the_scene_fit_for_update() {
    let mut scene = Scene::empty();
    scene.add_model(Model::load(&eval));
    scene.enqueue(SyncJob::Instance { model_id: 0, instance_id: 0 });
    assert!(scene.is_well_formed());
    let syncs = scene.update(frame(), &eval).unwrap();
    assert_eq!(syncs.len(), 1);
    assert_eq!(syncs[0].0, 0);
    assert_eq!(syncs[0].1.recreate, None);
    assert_eq!(scene.num_jobs(), 0);
}

#[test]
fn the_first_error_wins() {
    let mut scene = Scene::empty();
    scene.add_model(Model::load_sized(0));
    scene.add_model(Model::load_sized(0));
    scene.add_instance(1, &eval, &shift);
    scene.add_instance(0, &eval, &shift);
    assert_eq!(
        scene.sync_scene_gpu().unwrap_err(),
        SceneError { model_id: 1, error: SyncError::ZeroCapacity }
    );
    assert_eq!(scene.num_jobs(), 2);
}

#[test]
fn remove_instance_of_takes_the_last_instance() {
    let mut scene = Scene::empty();
    scene.add_model(Model::load(&eval));
    scene.add_instance(0, &eval, &shift);
    scene.remove_instance_of(0);
    assert_eq!(scene.model(0).get_num_instances(), 1);
    scene.remove_instance_of(0);
    scene.remove_instance_of(0);
    assert_eq!(scene.model(0).get_num_instances(), 0);
}

#[test]
fn draw_iteration_covers_every_instance_of_every_model() {
    let mut scene = Scene::empty();
    scene.add_model(Model::load(&eval));
    scene.add_model(Model::load_sized(2));
    scene.add_instance(0, &eval, &shift);
    scene.add_instance(0, &eval, &shift);
    assert_eq!(scene.draw_iteration(), vec![(0, 0..3), (1, 0..0)]);
}

#[test]
fn make_instance_child_of_hangs_a_node_below_the_path() {
    let mut scene = Scene::empty();
    scene.add_model(Model::load(&eval));
    scene.make_instance_child_of(0, 0, vec![]);
    scene.make_instance_child_of(0, 1, vec![0]);
    scene.make_instance_child_of(0, 2, vec![0, 0]);
    let graph = scene.graph();
    assert_eq!(graph.children.len(), 1);
    assert_eq!(graph.children[0].instance_id, Some(0));
    assert_eq!(graph.children[0].children[0].instance_id, Some(1));
    assert_eq!(graph.children[0].children[0].children[0].instance_id, Some(2));
    assert!(graph.children[0].children[0].children[0].changed);
}

#[test]
fn rotate_node_marks_only_its_subtree() {
    let mut scene = Scene::empty();
    scene.add_model(Model::load(&eval));
    scene.make_instance_child_of(0, 0, vec![]);
    scene.make_instance_child_of(0, 1, vec![]);
    scene.make_instance_child_of(0, 2, vec![1]);
    scene.collect_changes();
    let q = quaternion(cgmath::Quaternion::from_axis_angle(cgmath::Vector3::unit_z(), Deg(90.0f32)));
    scene.rotate_node(&[1], q, &compose);
    assert_eq!(flags(scene.graph()), vec![false, false, true, true]);
    assert_eq!(scene.graph().children[1].rotation, compose(Quaternion::identity(), q));
    assert_eq!(scene.graph().children[0].rotation, Quaternion::identity());
}

#[test]
fn make_galaxy_builds_sun_planet_and_moon() {
    let mut scene = Scene::empty();
    scene.add_model(Model::load(&eval));
    scene.make_galaxy(&eval, &shift);
    assert_eq!(scene.model(0).get_num_instances(), 4);
    assert_eq!(scene.num_jobs(), 3);
    let graph = scene.graph();
    assert_eq!(graph.model_id, None);
    assert_eq!(graph.children.len(), 2);
    let sun = &graph.children[0];
    assert_eq!((sun.model_id, sun.instance_id, sun.scale), (Some(0), Some(1), bits(10.0)));
    let planet_orbit = &graph.children[1];
    assert_eq!(planet_orbit.model_id, None);
    assert_eq!(planet_orbit.position, Vector3::new(bits(2.0), 0, 0));
    let earth = &planet_orbit.children[0];
    assert_eq!((earth.model_id, earth.instance_id, earth.scale), (Some(0), Some(2), bits(5.0)));
    let moon_orbit = &planet_orbit.children[1];
    assert_eq!(moon_orbit.position, Vector3::new(bits(0.75), 0, 0));
    let moon = &moon_orbit.children[0];
    assert_eq!((moon.model_id, moon.instance_id, moon.scale), (Some(0), Some(3), bits(2.0)));
}

#[test]
fn galaxy_frame_places_the_moon_beyond_the_planet() {
    let mut scene = Scene::empty();
    scene.add_model(Model::load(&eval));
    scene.make_galaxy(&eval, &shift);
    let syncs = scene.update(frame(), &eval).unwrap();
    // three requests from the new instances, one from the changed nodes
    assert_eq!(syncs.len(), 4);
    assert_eq!(syncs[0].1.recreate, Some(4));
    assert_eq!(syncs[3].1.recreate, None);
    assert_eq!(scene.model(0).get_gpu_length(), 4);
    assert_eq!(translation(scene.model(0).instance_at(1).unwrap()), (0.0, 0.0, 0.0));
    assert_eq!(translation(scene.model(0).instance_at(2).unwrap()), (2.0, 0.0, 0.0));
    assert_eq!(translation(scene.model(0).instance_at(3).unwrap()), (2.75, 0.0, 0.0));
    assert_eq!(scalar(scene.model(0).instance_at(1).unwrap().model.x.x), 10.0);
}

#[test]
fn animate_galaxy_turns_the_orbits() {
    let mut scene = Scene::empty();
    scene.add_model(Model::load(&eval));
    scene.make_galaxy(&eval, &shift);
    scene.update(frame(), &eval).unwrap();
    let planet =
        quaternion(cgmath::Quaternion::from_axis_angle(cgmath::Vector3::unit_z(), Deg(90.0f32)));
    let sun = quaternion(cgmath::Quaternion::from_axis_angle(cgmath::Vector3::unit_x(), Deg(1.0f32)));
    let moon =
        quaternion(cgmath::Quaternion::from_axis_angle(cgmath::Vector3::unit_z(), Deg(-2.0f32)));
    scene.animate_galaxy(frame(), planet, sun, moon, &compose);
    // top, sun, planet orbit, earth, moon orbit, moon
    assert_eq!(flags(scene.graph()), vec![false, true, true, true, true, true]);
    assert_eq!(scene.graph().children[1].rotation, compose(Quaternion::identity(), planet));
    assert_eq!(scene.graph().children[0].rotation, compose(Quaternion::identity(), sun));
    assert_eq!(scene.graph().children[1].children[1].rotation, compose(Quaternion::identity(), moon));
    let syncs = scene.update(frame(), &eval).unwrap();
    assert_eq!(syncs.len(), 1);
    // the planet's orbit is turned a quarter about z and then moved two
    // units along x: the earth comes to stand two units along y
    let earth = translation(scene.model(0).instance_at(2).unwrap());
    assert!((earth.0 - 0.0).abs() < 1e-5);
    assert!((earth.1 - 2.0).abs() < 1e-5);
}

#[test]
fn a_stale_instance_id_is_skipped_without_failing() {
    let mut scene = Scene::empty();
    scene.add_model(Model::load(&eval));
    scene.add_instance(0, &eval, &shift);
    scene.make_instance_child_of(0, 1, vec![]);
    scene.update(frame(), &eval).unwrap();
    // the instance goes, the node that names it stays
    scene.remove_instance_of(0);
    scene.set_scale(bits(2.0));
    let before = scene.model(0).instance_at(0);
    let syncs = scene.update(frame(), &eval).unwrap();
    assert_eq!(scene.model(0).get_num_instances(), 1);
    assert_eq!(scene.model(0).instance_at(0), before);
    // the model was named, so its records are written all the same
    assert_eq!(syncs.len(), 1);
    assert_eq!(syncs[0].1.records.len(), 1);
}

#[test]
fn well_formed_scenes_name_only_their_models() {
    let mut scene = Scene::empty();
    assert!(scene.is_well_formed());
    scene.make_instance_child_of(0, 0, vec![]);
    assert!(!scene.is_well_formed());
    scene.add_model(Model::load(&eval));
    assert!(scene.is_well_formed());
    scene.enqueue(SyncJob::Instance { model_id: 1, instance_id: 0 });
    assert!(!scene.is_well_formed());
    scene.add_model(Model::load(&eval));
    assert!(scene.is_well_formed());
    scene.enqueue(SyncJob::Instance { model_id: 2, instance_id: 0 });
    assert!(!scene.is_well_formed());
    scene.add_model(Model::load(&eval));
    assert!(scene.is_well_formed());
}
