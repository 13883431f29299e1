//! The scene: models, the graph of their instances, and the frame update.

pub mod galaxy;
pub mod jobs;
pub mod laws;
pub mod scenenode;

use vstd::prelude::*;
use std::ops::Range;
use std::time::Duration;
use crate::model::{next_instance, shifter, Model};
use crate::renderer::instance::{evaluates, evaluator, InstanceRaw};
use crate::renderer::resource::{lemma_sync_is_idempotent, ResourceState, SyncError};
use crate::scene::galaxy::{animated, animates, body, composer, galaxy, orbit, turned};
use crate::scene::jobs::{
    applied, evaluated, first_error, instance_changes, instance_changes_view,
    lemma_applied_len, lemma_changes_name_models, lemma_first_error_found,
    lemma_first_error_none, lemma_instance_changes_name_models, lemma_synced_by_keeps,
    lemma_touches_push, synced_by, syncs_for, touched_jobs, touches,
    InstanceChange, InstanceChangeView, InstanceUpdate, ModelSync, SceneError, SyncJob,
};
use crate::scene::laws::{
    lemma_edit_keeps_models, lemma_flags_keep_models, lemma_mark_subtree_at,
    lemma_replace_keeps_models, lemma_replace_keeps_paths, lemma_replace_then_at,
};
use crate::scene::scenenode::{changes_view, Edit, Node, SceneNode};
use crate::transform::{Quaternion, Transform, Vector3, FIVE, TEN, THREE_QUARTERS, TWO, ZERO};

verus! {

/// The models, the graph that places their instances, and the requests
/// that wait for the next update.
pub struct Scene {
    models: Vec<Model>,
    sync_queue: Vec<SyncJob>,
    graph: SceneNode,
}

/// The mathematical state of a `Scene`.
pub ghost struct SceneState {
    /// The records of each model, by model id.
    pub models: Seq<ResourceState<InstanceRaw>>,
    /// The requests that wait, oldest first.
    pub queue: Seq<SyncJob>,
    pub graph: Node,
}

/// The states of the models, in their order.
pub open spec fn models_view(models: Seq<Model>) -> Seq<ResourceState<InstanceRaw>> {
    Seq::new(models.len(), |i: int| models[i]@)
}

impl SceneState {
    /// Every model that a node names is a model of the scene.
    pub open spec fn names_its_models(self) -> bool {
        self.graph.models_below(self.models.len())
    }

    /// Every request that waits is one for the records of a model of the
    /// scene. No other kind of request is carried out.
    pub open spec fn can_run(self) -> bool {
        forall|i: int|
            0 <= i < self.queue.len() ==> (#[trigger] self.queue[i]).runs_on(self.models.len())
    }

    /// The scene can be updated: its graph names only models of the scene,
    /// and only requests wait that are carried out.
    pub open spec fn well_formed(self) -> bool {
        &&& self.names_its_models()
        &&& self.can_run()
    }

    /// The world transforms that the next update has to bring to the
    /// instances: those of the changed nodes that stand for an instance.
    /// The local transform of the top of the graph counts twice: as the
    /// world that the traversal starts in, and as the top's own.
    pub open spec fn pending_changes(self) -> Seq<InstanceChangeView> {
        instance_changes(self.graph.changes(self.graph.local()))
    }

    /// The state after the changes of the graph have been collected and
    /// `updates` brought to the models: every node is clean, each update
    /// has overwritten its record, and one request waits for each model
    /// that an update was for.
    pub open spec fn collected(self, updates: Seq<InstanceUpdate>) -> SceneState {
        SceneState {
            models: applied(self.models, updates),
            queue: self.queue + touched_jobs(updates, self.models.len()),
            graph: self.graph.cleaned(),
        }
    }

    /// `r` and `after` are what carrying out the waiting requests of this
    /// state gives. Either every request can be carried out: then each
    /// model is brought up to date once for each request that names it, no
    /// request waits any longer, and `r` holds what is to be done on the
    /// device. Or one cannot: then nothing changes, and `r` is the error of
    /// the first such request.
    pub open spec fn sync_outcome(
        self,
        r: Result<Vec<ModelSync>, SceneError>,
        after: SceneState,
    ) -> bool {
        match r {
            Ok(syncs) => {
                &&& first_error(self.models, self.queue).is_none()
                &&& after == (SceneState {
                    models: synced_by(self.models, self.queue),
                    queue: Seq::<SyncJob>::empty(),
                    graph: self.graph,
                })
                &&& syncs_for(self.models, self.queue, syncs@)
            },
            Err(e) => {
                &&& first_error(self.models, self.queue) == Some(e)
                &&& after == self
            },
        }
    }
}

impl View for Scene {
    type V = SceneState;

    closed spec fn view(&self) -> SceneState {
        SceneState {
            models: models_view(self.models@),
            queue: self.sync_queue@,
            graph: self.graph@,
        }
    }
}

impl Scene {
    /// A scene with no model, no request, and a graph of one node.
    pub fn empty() -> (r: Self)
        ensures
            r@ == (SceneState {
                models: Seq::<ResourceState<InstanceRaw>>::empty(),
                queue: Seq::<SyncJob>::empty(),
                graph: Node::root(),
            }),
            r@.well_formed(),
    {
        let r = Scene { models: Vec::new(), sync_queue: Vec::new(), graph: SceneNode::new_root() };
        proof {
            assert(r@.models =~= Seq::<ResourceState<InstanceRaw>>::empty());
        }
        r
    }

    /// Takes `model` into the scene and returns its id. Ids are given in
    /// order and never change.
    pub fn add_model(&mut self, model: Model) -> (id: usize)
        ensures
            id == old(self)@.models.len(),
            final(self)@ == (SceneState {
                models: old(self)@.models.push(model@),
                ..old(self)@
            }),
            old(self)@.well_formed() ==> final(self)@.well_formed(),
    {
        let id: usize = self.models.len();
        self.models.push(model);
        proof {
            assert(self@.models =~= old(self)@.models.push(model@));
            if old(self)@.well_formed() {
                lemma_models_below_more(old(self)@.graph, id as nat, id as nat + 1);
            }
        }
        id
    }

    /// Adds an instance of the model and returns its id, and notes that the
    /// records of that model wait to be brought to the device. `shift`
    /// places the new instance beside the last one; see
    /// `Model::add_instance`.
    pub fn add_instance<E: Fn(&Transform) -> InstanceRaw, S: Fn(InstanceRaw) -> InstanceRaw>(
        &mut self,
        model_id: usize,
        eval: &E,
        shift: &S,
    ) -> (instance_id: usize)
        requires
            model_id < old(self)@.models.len(),
            evaluator(eval),
            shifter(shift),
        ensures
            instance_id == old(self)@.models[model_id as int].cpu.len(),
            final(self)@.models.len() == old(self)@.models.len(),
            final(self)@.models[model_id as int].cpu.len() == instance_id + 1,
            next_instance(
                old(self)@.models[model_id as int].cpu,
                eval,
                shift,
                final(self)@.models[model_id as int].cpu.last(),
            ),
            final(self)@ == (SceneState {
                models: old(self)@.models.update(
                    model_id as int,
                    old(self)@.models[model_id as int].appended(
                        seq![final(self)@.models[model_id as int].cpu.last()],
                    ),
                ),
                queue: old(self)@.queue.push(SyncJob::Instance { model_id, instance_id }),
                graph: old(self)@.graph,
            }),
            old(self)@.well_formed() ==> final(self)@.well_formed(),
    {
        let model = &mut self.models[model_id];
        let instance_id = model.add_instance(eval, shift);
        self.sync_queue.push(SyncJob::Instance { model_id, instance_id });
        proof {
            assert(self@.models =~= old(self)@.models.update(
                model_id as int,
                old(self)@.models[model_id as int].appended(
                    seq![self@.models[model_id as int].cpu.last()],
                ),
            ));
        }
        instance_id
    }

    /// Removes the last instance of the model, where it has one.
    pub fn remove_instance_of(&mut self, id: usize)
        requires
            id < old(self)@.models.len(),
        ensures
            final(self)@ == (SceneState {
                models: old(self)@.models.update(
                    id as int,
                    old(self)@.models[id as int].removed(old(self)@.models[id as int].cpu.len() - 1),
                ),
                ..old(self)@
            }),
            old(self)@.well_formed() ==> final(self)@.well_formed(),
    {
        let model = &mut self.models[id];
        model.remove_instance();
        proof {
            assert(self@.models =~= old(self)@.models.update(
                id as int,
                old(self)@.models[id as int].removed(old(self)@.models[id as int].cpu.len() - 1),
            ));
        }
    }

    /// Applies `edit` to the node of the graph that `path` leads to.
    pub fn edit_node(&mut self, path: &[usize], edit: Edit)
        requires
            old(self)@.graph.has_path(path@),
        ensures
            final(self)@ == (SceneState {
                graph: old(self)@.graph.replace_at(
                    path@,
                    old(self)@.graph.at(path@).edited(edit),
                ),
                ..old(self)@
            }),
            old(self)@.well_formed() && (edit matches Edit::AddChild(child)
                ==> child@.models_below(old(self)@.models.len())) ==> final(self)@.well_formed(),
    {
        let ghost given = edit;
        self.graph.edit_at(path, edit);
        proof {
            if old(self)@.well_formed() && (given matches Edit::AddChild(child)
                ==> child@.models_below(old(self)@.models.len())) {
                let n = old(self)@.models.len();
                let tree = old(self)@.graph;
                lemma_replace_keeps_models(tree, path@, tree.at(path@).edited(given), n);
                lemma_edit_keeps_models(tree.at(path@), given, n);
            }
        }
    }

    /// Hangs a node for instance `instance_id` of model `model_id` below
    /// the node of the graph that `id_chain` leads to.
    pub fn make_instance_child_of(&mut self, model_id: usize, instance_id: usize, id_chain: Vec<usize>)
        requires
            old(self)@.graph.has_path(id_chain@),
        ensures
            final(self)@ == (SceneState {
                graph: old(self)@.graph.replace_at(
                    id_chain@,
                    old(self)@.graph.at(id_chain@).with_child(Node::instance(model_id, instance_id)),
                ),
                ..old(self)@
            }),
            old(self)@.well_formed() && model_id < old(self)@.models.len()
                ==> final(self)@.well_formed(),
    {
        let node = SceneNode::new_instance_node(model_id, instance_id);
        self.edit_node(id_chain.as_slice(), Edit::AddChild(node));
    }

    /// Turns the node of the graph that `path` leads to further by
    /// `rotation`; see `SceneNode::rotate`.
    pub fn rotate_node<C: Fn(Quaternion, Quaternion) -> Quaternion>(
        &mut self,
        path: &[usize],
        rotation: Quaternion,
        compose: &C,
    )
        requires
            old(self)@.graph.has_path(path@),
            call_requires(*compose, (old(self)@.graph.at(path@).rotation, rotation)),
        ensures
            call_ensures(
                *compose,
                (old(self)@.graph.at(path@).rotation, rotation),
                final(self)@.graph.at(path@).rotation,
            ),
            final(self)@ == (SceneState {
                graph: old(self)@.graph.replace_at(
                    path@,
                    old(self)@.graph.at(path@).rotated(final(self)@.graph.at(path@).rotation),
                ),
                ..old(self)@
            }),
            old(self)@.well_formed() ==> final(self)@.well_formed(),
    {
        let current = match self.graph.node_at(path) {
            Some(node) => node.rotation,
            None => rotation,
        };
        let turned = compose(current, rotation);
        self.edit_node(path, Edit::Rotation(turned));
        proof {
            lemma_replace_then_at(
                old(self)@.graph,
                path@,
                old(self)@.graph.at(path@).rotated(turned),
            );
        }
    }

    /// Sets the scale of the top of the graph.
    pub fn set_scale(&mut self, scale: u32)
        ensures
            final(self)@ == (SceneState { graph: old(self)@.graph.scaled(scale), ..old(self)@ }),
            old(self)@.well_formed() ==> final(self)@.well_formed(),
    {
        let none: Vec<usize> = Vec::new();
        self.edit_node(none.as_slice(), Edit::Scale(scale));
    }

    /// Collects the changed nodes of the graph that stand for an instance,
    /// each with its world transform, and marks every node as clean.
    pub fn collect_changes(&mut self) -> (r: Vec<InstanceChange>)
        ensures
            instance_changes_view(r@) == old(self)@.pending_changes(),
            final(self)@ == (SceneState { graph: old(self)@.graph.cleaned(), ..old(self)@ }),
            old(self)@.names_its_models() ==> final(self)@.names_its_models(),
            old(self)@.can_run() ==> final(self)@.can_run(),
    {
        let root_mat = Transform::local(self.graph.rotation, self.graph.position, self.graph.scale);
        let changed = self.graph.collect_changed(&root_mat);
        let ghost reported = changes_view(changed@);
        let mut out: Vec<InstanceChange> = Vec::new();
        let n: usize = changed.len();
        let mut k: usize = 0;
        proof {
            assert(reported.subrange(0, 0) =~= Seq::<crate::scene::scenenode::ChangeView>::empty());
            assert(instance_changes_view(out@) =~= instance_changes(reported.subrange(0, 0)));
        }
        while k < n
            invariant
                k <= n,
                n == changed@.len(),
                reported == changes_view(changed@),
                instance_changes_view(out@) == instance_changes(reported.subrange(0, k as int)),
            decreases n - k,
        {
            let ghost done = out@;
            let change = &changed[k];
            match (change.0, change.1) {
                (Some(model_id), Some(instance_id)) => {
                    out.push((model_id, instance_id, change.2.duplicate()));
                },
                _ => {},
            }
            proof {
                let next = reported.subrange(0, k + 1);
                assert(next.drop_last() =~= reported.subrange(0, k as int));
                assert(next.last() == reported[k as int]);
                assert(instance_changes_view(out@) =~= instance_changes(next));
            }
            k += 1;
        }
        proof {
            assert(reported.subrange(0, n as int) =~= reported);
            if old(self)@.names_its_models() {
                lemma_flags_keep_models(old(self)@.graph, old(self)@.models.len());
            }
        }
        out
    }

    /// Brings each update to its model: the record of the instance is
    /// overwritten, where the model has that instance. Then one request is
    /// made for each model that an update was for, however many there were.
    pub fn apply_changes(&mut self, updates: Vec<InstanceUpdate>)
        requires
            forall|k: int|
                0 <= k < updates@.len() ==> (#[trigger] updates@[k]).0 < old(self)@.models.len(),
        ensures
            final(self)@ == (SceneState {
                models: applied(old(self)@.models, updates@),
                queue: old(self)@.queue + touched_jobs(updates@, old(self)@.models.len()),
                graph: old(self)@.graph,
            }),
            old(self)@.names_its_models() ==> final(self)@.names_its_models(),
            old(self)@.can_run() ==> final(self)@.can_run(),
    {
        let n: usize = self.models.len();
        let mut touched: Vec<bool> = Vec::new();
        let mut m: usize = 0;
        while m < n
            invariant
                m <= n,
                touched@.len() == m,
                forall|j: int| 0 <= j < m ==> !(#[trigger] touched@[j]),
            decreases n - m,
        {
            touched.push(false);
            m += 1;
        }
        let count: usize = updates.len();
        let mut k: usize = 0;
        proof {
            assert(updates@.subrange(0, 0) =~= Seq::<InstanceUpdate>::empty());
            assert(models_view(self.models@) =~= applied(old(self)@.models, updates@.subrange(0, 0)));
            assert forall|j: int| 0 <= j < n implies (#[trigger] touched@[j]) == touches(
                updates@.subrange(0, 0),
                j as usize,
            ) by {}
        }
        while k < count
            invariant
                k <= count,
                count == updates@.len(),
                n == old(self)@.models.len(),
                self.models@.len() == n,
                touched@.len() == n,
                self.sync_queue == old(self).sync_queue,
                self.graph == old(self).graph,
                forall|j: int| 0 <= j < updates@.len() ==> (#[trigger] updates@[j]).0 < n,
                models_view(self.models@) == applied(
                    old(self)@.models,
                    updates@.subrange(0, k as int),
                ),
                forall|j: int|
                    0 <= j < n ==> (#[trigger] touched@[j]) == touches(
                        updates@.subrange(0, k as int),
                        j as usize,
                    ),
            decreases count - k,
        {
            let (model_id, instance_id, raw) = updates[k];
            let ghost before = models_view(self.models@);
            let ghost marks = touched@;
            let model = &mut self.models[model_id];
            model.change_instance_raw(instance_id, raw);
            touched[model_id] = true;
            proof {
                let done = updates@.subrange(0, k as int);
                let next = updates@.subrange(0, k + 1);
                assert(next.drop_last() =~= done);
                assert(next.last() == updates@[k as int]);
                assert(next =~= done.push(updates@[k as int]));
                lemma_applied_len(old(self)@.models, done);
                assert(models_view(self.models@) =~= before.update(
                    model_id as int,
                    before[model_id as int].mutated(instance_id as int, raw),
                ));
                assert forall|j: int| 0 <= j < n implies (#[trigger] touched@[j]) == touches(
                    next,
                    j as usize,
                ) by {
                    lemma_touches_push(done, updates@[k as int], j as usize);
                }
            }
            k += 1;
        }
        proof {
            assert(updates@.subrange(0, count as int) =~= updates@);
        }
        let mut m: usize = 0;
        while m < n
            invariant
                m <= n,
                n == old(self)@.models.len(),
                self.models@.len() == n,
                touched@.len() == n,
                self.graph == old(self).graph,
                models_view(self.models@) == applied(old(self)@.models, updates@),
                forall|j: int|
                    0 <= j < n ==> (#[trigger] touched@[j]) == touches(updates@, j as usize),
                self.sync_queue@ == old(self)@.queue + touched_jobs(updates@, m as nat),
                old(self)@.can_run() ==> forall|i: int|
                    0 <= i < self.sync_queue@.len() ==> (#[trigger] self.sync_queue@[i]).runs_on(
                        n as nat,
                    ),
            decreases n - m,
        {
            if touched[m] {
                self.sync_queue.push(SyncJob::Instance { model_id: m, instance_id: 0 });
            }
            proof {
                assert(self.sync_queue@ =~= old(self)@.queue + touched_jobs(
                    updates@,
                    (m + 1) as nat,
                ));
            }
            m += 1;
        }
        proof {
            lemma_applied_len(old(self)@.models, updates@);
        }
    }

    /// Collects the changes of the graph, has `eval` make the record for
    /// each world transform, and brings the records to the models.
    pub fn collect_sync_jobs<E: Fn(&Transform) -> InstanceRaw>(&mut self, eval: &E)
        requires
            old(self)@.names_its_models(),
            evaluator(eval),
        ensures
            exists|updates: Seq<InstanceUpdate>|
                {
                    &&& evaluated(eval, old(self)@.pending_changes(), updates)
                    &&& final(self)@ == #[trigger] old(self)@.collected(updates)
                },
            final(self)@.names_its_models(),
            old(self)@.can_run() ==> final(self)@.can_run(),
    {
        let changes = self.collect_changes();
        let ghost pending = old(self)@.pending_changes();
        let mut updates: Vec<InstanceUpdate> = Vec::new();
        let n: usize = changes.len();
        let mut k: usize = 0;
        proof {
            lemma_changes_name_models(
                old(self)@.graph,
                old(self)@.graph.local(),
                old(self)@.models.len(),
            );
            lemma_instance_changes_name_models(
                old(self)@.graph.changes(old(self)@.graph.local()),
                old(self)@.models.len(),
            );
        }
        while k < n
            invariant
                k <= n,
                n == changes@.len(),
                evaluator(eval),
                pending == instance_changes_view(changes@),
                updates@.len() == k,
                forall|j: int|
                    0 <= j < k ==> {
                        &&& (#[trigger] updates@[j]).0 == pending[j].0
                        &&& updates@[j].1 == pending[j].1
                        &&& evaluates(eval, pending[j].2, updates@[j].2)
                    },
            decreases n - k,
        {
            let change = &changes[k];
            let raw = eval(&change.2);
            updates.push((change.0, change.1, raw));
            k += 1;
        }
        let ghost made = updates@;
        proof {
            assert(evaluated(eval, pending, made));
            assert forall|j: int| 0 <= j < made.len() implies (#[trigger] made[j]).0 < self@.models.len() by {
                assert(made[j].0 == pending[j].0);
            }
        }
        self.apply_changes(updates);
        proof {
            assert(self@ == old(self)@.collected(made));
        }
    }

    /// Carries out the waiting requests, oldest first. Each is one for the
    /// records of a model: a request of another kind must not wait. Where
    /// the buffer of every model named can hold its records, the records
    /// of each are brought up to date, and no request waits any longer;
    /// what is to be done on the device comes back, one plan for each
    /// request. Where one cannot, nothing changes and the error of the
    /// first such request comes back.
    pub fn sync_scene_gpu(&mut self) -> (r: Result<Vec<ModelSync>, SceneError>)
        requires
            old(self)@.can_run(),
        ensures
            old(self)@.sync_outcome(r, final(self)@),
            final(self)@.can_run(),
            old(self)@.names_its_models() ==> final(self)@.names_its_models(),
    {
        let n: usize = self.models.len();
        let count: usize = self.sync_queue.len();
        let mut k: usize = 0;
        while k < count
            invariant
                k <= count,
                count == self.sync_queue@.len(),
                *self == *old(self),
                self@.can_run(),
                forall|j: int|
                    0 <= j < k ==> (#[trigger] self.sync_queue@[j]).error(self@.models).is_none(),
            decreases count - k,
        {
            let failure: Option<SceneError> = match &self.sync_queue[k] {
                SyncJob::Instance { model_id, .. } => {
                    if *model_id < self.models.len() && !self.models[*model_id].can_sync() {
                        let error = if self.models[*model_id].get_gpu_length() == 0 {
                            SyncError::ZeroCapacity
                        } else {
                            SyncError::CapacityOverflow
                        };
                        Some(SceneError { model_id: *model_id, error })
                    } else {
                        None
                    }
                },
                _ => None,
            };
            proof {
                assert(failure == self.sync_queue@[k as int].error(self@.models));
            }
            if let Some(e) = failure {
                proof {
                    lemma_first_error_found(self@.models, self@.queue, k as int);
                }
                return Err(e);
            }
            k += 1;
        }
        proof {
            lemma_first_error_none(self@.models, self@.queue);
            assert(self@.queue.subrange(0, 0) =~= Seq::<SyncJob>::empty());
        }
        let mut syncs: Vec<ModelSync> = Vec::new();
        let mut k: usize = 0;
        while k < count
            invariant
                k <= count,
                count == self.sync_queue@.len(),
                n == old(self)@.models.len(),
                self.models@.len() == n,
                self.sync_queue == old(self).sync_queue,
                self.graph == old(self).graph,
                old(self)@.can_run(),
                forall|j: int|
                    0 <= j < count ==> (#[trigger] old(self)@.queue[j]).error(
                        old(self)@.models,
                    ).is_none(),
                models_view(self.models@) == synced_by(
                    old(self)@.models,
                    old(self)@.queue.subrange(0, k as int),
                ),
                syncs_for(old(self)@.models, old(self)@.queue.subrange(0, k as int), syncs@),
            decreases count - k,
        {
            let ghost before = models_view(self.models@);
            let ghost done = old(self)@.queue.subrange(0, k as int);
            let ghost next = old(self)@.queue.subrange(0, k + 1);
            let ghost handed = syncs@;
            proof {
                lemma_synced_by_keeps(old(self)@.models, done);
                assert(next.drop_last() =~= done);
                assert(next.last() == old(self)@.queue[k as int]);
                assert(old(self)@.queue[k as int].error(old(self)@.models).is_none());
            }
            let model_id: usize = match &self.sync_queue[k] {
                SyncJob::Instance { model_id, .. } => *model_id,
                _ => {
                    proof {
                        assert(false);
                    }
                    0
                },
            };
            proof {
                assert(old(self)@.queue[k as int].model() == Some(model_id));
                assert(model_id < n);
                let first = old(self)@.models[model_id as int];
                assert(first.can_sync());
                lemma_sync_is_idempotent(first);
                assert(before[model_id as int] == first || before[model_id as int]
                    == first.synced());
            }
            let model = &mut self.models[model_id];
            match model.sync_instances() {
                Ok(plan) => {
                    syncs.push((model_id, plan));
                },
                Err(_) => {
                    proof {
                        assert(false);
                    }
                },
            }
            proof {
                assert(models_view(self.models@) =~= before.update(
                    model_id as int,
                    before[model_id as int].synced(),
                ));
                assert(models_view(self.models@) == synced_by(old(self)@.models, next));
                assert forall|j: int| 0 <= j < next.len() implies {
                    let earlier = synced_by(old(self)@.models, next.subrange(0, j));
                    let id = (#[trigger] syncs@[j]).0;
                    &&& next[j].model() == Some(id)
                    &&& id < old(self)@.models.len()
                    &&& syncs@[j].1.records@ == old(self)@.models[id as int].cpu
                    &&& syncs@[j].1.recreate == (if earlier[id as int].needs_growth() {
                        Some(earlier[id as int].synced().capacity as usize)
                    } else {
                        None
                    })
                } by {
                    if j < k {
                        assert(syncs@[j] == handed[j]);
                        assert(next.subrange(0, j) =~= done.subrange(0, j));
                        assert(next[j] == done[j]);
                    } else {
                        assert(next.subrange(0, j) =~= done);
                    }
                }
            }
            k += 1;
        }
        self.sync_queue.clear();
        proof {
            assert(old(self)@.queue.subrange(0, count as int) =~= old(self)@.queue);
            assert(self@.queue =~= Seq::<SyncJob>::empty());
        }
        Ok(syncs)
    }

    /// One frame: collects the changes of the graph, brings the world
    /// transforms to the instances through `eval`, and carries out every
    /// request that waits.
    pub fn update<E: Fn(&Transform) -> InstanceRaw>(&mut self, _dt: Duration, eval: &E) -> (r:
        Result<Vec<ModelSync>, SceneError>)
        requires
            old(self)@.well_formed(),
            evaluator(eval),
        ensures
            exists|updates: Seq<InstanceUpdate>|
                {
                    &&& evaluated(eval, old(self)@.pending_changes(), updates)
                    &&& (#[trigger] old(self)@.collected(updates)).sync_outcome(r, final(self)@)
                },
            final(self)@.well_formed(),
    {
        self.collect_sync_jobs(eval);
        self.sync_scene_gpu()
    }

    /// What is to be drawn: each model, by id, with the range of its
    /// instances.
    pub fn draw_iteration(&self) -> (r: Vec<(usize, Range<usize>)>)
        ensures
            r@.len() == self@.models.len(),
            forall|k: int|
                0 <= k < r@.len() ==> {
                    &&& (#[trigger] r@[k]).0 == k
                    &&& r@[k].1.start == 0
                    &&& r@[k].1.end == self@.models[k].cpu.len()
                },
    {
        let mut out: Vec<(usize, Range<usize>)> = Vec::new();
        let n: usize = self.models.len();
        let mut k: usize = 0;
        while k < n
            invariant
                k <= n,
                n == self.models@.len(),
                out@.len() == k,
                forall|j: int|
                    0 <= j < k ==> {
                        &&& (#[trigger] out@[j]).0 == j
                        &&& out@[j].1.start == 0
                        &&& out@[j].1.end == self@.models[j].cpu.len()
                    },
            decreases n - k,
        {
            let count: usize = self.models[k].get_num_instances();
            out.push((k, Range { start: 0, end: count }));
            k += 1;
        }
        out
    }

    /// Builds a graph of a sun, a planet and a moon out of three new
    /// instances of the only model, in place of the graph that was.
    pub fn make_galaxy<E: Fn(&Transform) -> InstanceRaw, S: Fn(InstanceRaw) -> InstanceRaw>(
        &mut self,
        eval: &E,
        shift: &S,
    )
        requires
            old(self)@.models.len() == 1,
            evaluator(eval),
            shifter(shift),
        ensures
            final(self)@.models.len() == 1,
            ({
                let before = old(self)@.models[0];
                let after = final(self)@.models[0];
                let n = before.cpu.len() as int;
                &&& after.cpu.len() == n + 3
                &&& after == before.appended(after.cpu.subrange(n, n + 3))
                &&& next_instance(before.cpu, eval, shift, after.cpu[n])
                &&& next_instance(after.cpu.subrange(0, n + 1), eval, shift, after.cpu[n + 1])
                &&& next_instance(after.cpu.subrange(0, n + 2), eval, shift, after.cpu[n + 2])
                &&& final(self)@.graph == galaxy(n as usize, (n + 1) as usize, (n + 2) as usize)
                &&& final(self)@.queue == old(self)@.queue + seq![
                    SyncJob::Instance { model_id: 0, instance_id: n as usize },
                    SyncJob::Instance { model_id: 0, instance_id: (n + 1) as usize },
                    SyncJob::Instance { model_id: 0, instance_id: (n + 2) as usize },
                ]
            }),
            old(self)@.well_formed() ==> final(self)@.well_formed(),
    {
        let mut solar_system = SceneNode::default();
        let mut planet_orbit = SceneNode::default();
        planet_orbit.position = Vector3::new(TWO, ZERO, ZERO);
        let mut moon_orbit = SceneNode::default();
        moon_orbit.position = Vector3::new(THREE_QUARTERS, ZERO, ZERO);

        let ghost before = self@.models[0];
        let sun = self.add_instance(0, eval, shift);
        let ghost one = self@.models[0];
        let earth = self.add_instance(0, eval, shift);
        let ghost two = self@.models[0];
        let moon = self.add_instance(0, eval, shift);
        let ghost three = self@.models[0];

        let mut sun_node = SceneNode::default();
        sun_node.model_id = Some(0);
        sun_node.instance_id = Some(sun);
        sun_node.scale = TEN;
        let mut earth_node = SceneNode::default();
        earth_node.model_id = Some(0);
        earth_node.instance_id = Some(earth);
        earth_node.scale = FIVE;
        let mut moon_node = SceneNode::default();
        moon_node.model_id = Some(0);
        moon_node.instance_id = Some(moon);
        moon_node.scale = TWO;

        solar_system.add_child(sun_node);
        planet_orbit.add_child(earth_node);
        moon_orbit.add_child(moon_node);
        planet_orbit.add_child(moon_orbit);
        solar_system.add_child(planet_orbit);
        proof {
            let n = before.cpu.len() as int;
            assert(moon_orbit@.children =~= seq![body(moon, TWO)]);
            assert(planet_orbit@.children =~= seq![
                body(earth, FIVE),
                orbit(THREE_QUARTERS, seq![body(moon, TWO)]),
            ]);
            assert(solar_system@.children =~= galaxy(sun, earth, moon).children);
            assert(solar_system@ == galaxy(sun, earth, moon));
            assert(one.cpu =~= three.cpu.subrange(0, n + 1));
            assert(two.cpu =~= three.cpu.subrange(0, n + 2));
            assert(three.cpu =~= before.cpu + three.cpu.subrange(n, n + 3));
            assert(self@.queue =~= old(self)@.queue + seq![
                SyncJob::Instance { model_id: 0, instance_id: sun },
                SyncJob::Instance { model_id: 0, instance_id: earth },
                SyncJob::Instance { model_id: 0, instance_id: moon },
            ]);
            let graph = galaxy(sun, earth, moon);
            let planet = graph.children[1];
            let moons = planet.children[1];
            assert(moons.children[0].models_below(1));
            assert(moons.models_below(1));
            assert(planet.children[0].models_below(1));
            assert(planet.models_below(1));
            assert(graph.children[0].models_below(1));
            assert(graph.models_below(1));
        }
        self.graph = solar_system;
    }

    /// One step of the galaxy: turns the planet's orbit by `planet`, the
    /// sun by `sun` and the moon's orbit by `moon`, in this order, each
    /// with everything below it.
    pub fn animate_galaxy<C: Fn(Quaternion, Quaternion) -> Quaternion>(
        &mut self,
        _dt: Duration,
        planet: Quaternion,
        sun: Quaternion,
        moon: Quaternion,
        compose: &C,
    )
        requires
            old(self)@.graph.has_path(seq![0usize]),
            old(self)@.graph.has_path(seq![1usize, 1usize]),
            composer(compose),
        ensures
            exists|p: Quaternion, s: Quaternion, m: Quaternion|
                {
                    &&& #[trigger] animates(compose, old(self)@.graph, planet, sun, moon, p, s, m)
                    &&& final(self)@ == (SceneState {
                        graph: animated(old(self)@.graph, p, s, m),
                        ..old(self)@
                    })
                },
            old(self)@.well_formed() ==> final(self)@.well_formed(),
    {
        let mut planet_path: Vec<usize> = Vec::new();
        planet_path.push(1);
        let mut sun_path: Vec<usize> = Vec::new();
        sun_path.push(0);
        let mut moon_path: Vec<usize> = Vec::new();
        moon_path.push(1);
        moon_path.push(1);
        proof {
            assert(planet_path@ =~= seq![1usize]);
            assert(sun_path@ =~= seq![0usize]);
            assert(moon_path@ =~= seq![1usize, 1usize]);
            let graph = old(self)@.graph;
            let both = seq![1usize, 1usize];
            let one = seq![1usize];
            assert(both.drop_first() =~= one);
            assert(one.drop_first() =~= Seq::<usize>::empty());
            assert(both[0] == 1 && one[0] == 1);
            assert(graph.children[1].has_path(one));
            assert(graph.children[1].has_path(Seq::<usize>::empty()));
            assert(graph.children[1].at(Seq::<usize>::empty()) == graph.children[1]);
            assert(graph.has_path(one));
            assert(graph.at(one) == graph.children[1]);
        }
        let ghost start = self@.graph;
        self.rotate_node(planet_path.as_slice(), planet, compose);
        let ghost first = self@.graph;
        proof {
            lemma_replace_keeps_paths(start, seq![1usize], first.at(seq![1usize]), seq![0usize]);
        }
        self.rotate_node(sun_path.as_slice(), sun, compose);
        let ghost second = self@.graph;
        proof {
            let q = first.at(seq![1usize]).rotation;
            lemma_mark_subtree_at(Node { rotation: q, ..start.at(seq![1usize]) }, seq![1usize]);
            assert(seq![1usize, 1usize].subrange(1, 2) =~= seq![1usize]);
            lemma_replace_keeps_paths(
                start,
                seq![1usize],
                start.at(seq![1usize]).rotated(first.at(seq![1usize]).rotation),
                seq![1usize, 1usize],
            );
            lemma_replace_keeps_paths(
                first,
                seq![0usize],
                first.at(seq![0usize]).rotated(second.at(seq![0usize]).rotation),
                seq![1usize, 1usize],
            );
        }
        self.rotate_node(moon_path.as_slice(), moon, compose);
        proof {
            let p = first.at(seq![1usize]).rotation;
            let s = second.at(seq![0usize]).rotation;
            let m = self@.graph.at(seq![1usize, 1usize]).rotation;
            assert(first == turned(start, seq![1usize], p));
            assert(second == turned(first, seq![0usize], s));
            assert(self@.graph == turned(second, seq![1usize, 1usize], m));
            assert(animates(compose, start, planet, sun, moon, p, s, m));
        }
    }

    /// Whether the scene can be updated: whether every model that a node
    /// names is a model of the scene, and every request that waits is one
    /// for the records of such a model.
    pub fn is_well_formed(&self) -> (r: bool)
        ensures
            r == self@.well_formed(),
    {
        let n: usize = self.models.len();
        if !self.graph.names_models_below(n) {
            return false;
        }
        let count: usize = self.sync_queue.len();
        let mut k: usize = 0;
        while k < count
            invariant
                k <= count,
                count == self.sync_queue@.len(),
                n == self@.models.len(),
                forall|j: int| 0 <= j < k ==> (#[trigger] self@.queue[j]).runs_on(n as nat),
            decreases count - k,
        {
            let runs = match &self.sync_queue[k] {
                SyncJob::Instance { model_id, .. } => *model_id < n,
                _ => false,
            };
            if !runs {
                proof {
                    assert(!self@.queue[k as int].runs_on(n as nat));
                }
                return false;
            }
            k += 1;
        }
        true
    }

    /// Makes `job` wait behind the requests that wait already. With a
    /// request that is not carried out, or one for a model that the scene
    /// does not have, the scene can no longer be updated.
    pub fn enqueue(&mut self, job: SyncJob)
        ensures
            final(self)@ == (SceneState { queue: old(self)@.queue.push(job), ..old(self)@ }),
            old(self)@.names_its_models() ==> final(self)@.names_its_models(),
            old(self)@.can_run() && job.runs_on(old(self)@.models.len()) ==> final(self)@.can_run(),
    {
        self.sync_queue.push(job);
    }

    /// The number of requests that wait.
    pub fn num_jobs(&self) -> (r: usize)
        ensures
            r == self@.queue.len(),
    {
        self.sync_queue.len()
    }

    /// The number of models.
    pub fn num_models(&self) -> (r: usize)
        ensures
            r == self@.models.len(),
    {
        self.models.len()
    }

    /// The model of this id.
    pub fn model(&self, model_id: usize) -> (r: &Model)
        requires
            model_id < self@.models.len(),
        ensures
            r@ == self@.models[model_id as int],
    {
        &self.models[model_id]
    }

    /// The graph.
    pub fn graph(&self) -> (r: &SceneNode)
        ensures
            r@ == self@.graph,
    {
        &self.graph
    }
}

/// A graph whose models are among the first `n` has them among the first
/// `m`, for `m` at least `n`.
pub proof fn lemma_models_below_more(node: Node, n: nat, m: nat)
    requires
        node.models_below(n),
        n <= m,
    ensures
        node.models_below(m),
    decreases node,
{
    assert forall|i: int| 0 <= i < node.children.len() implies (#[trigger] node.children[i]).models_below(
        m,
    ) by {
        lemma_models_below_more(node.children[i], n, m);
    }
}

} // verus!
