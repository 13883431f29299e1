//! The requests of a scene, and what an update does with them.

use vstd::prelude::*;
use std::ops::Range;
use crate::renderer::instance::{evaluates, InstanceRaw};
use crate::renderer::resource::{
    lemma_grown_bounds, lemma_sync_is_idempotent, ResourceState, SyncError, SyncPlan,
};
use crate::scene::scenenode::{changes_of, ChangeView, Node};
use crate::transform::{Factor, Transform};

verus! {

/// A request to bring something on the device up to date. Only a request
/// for the records of a model is carried out. The other kinds are named
/// for what may come; a scene in which one of them waits cannot be updated.
#[derive(Debug)]
pub enum SyncJob {
    /// The records of the instances of one model.
    Instance { model_id: usize, instance_id: usize },
    /// A run of instances of one model. Not carried out.
    Instances { model_id: usize, instance_ids: Range<usize> },
    /// The vertices of a mesh. Not carried out.
    Vertex,
    /// The indices of a mesh. Not carried out.
    Index,
    /// The state of an animation. Not carried out.
    Animation,
}

/// Why the waiting requests could not be carried out: the records of
/// this model could not be brought up to date.
#[derive(Clone, Copy, Debug, PartialEq, Eq, Structural)]
pub struct SceneError {
    pub model_id: usize,
    pub error: SyncError,
}

/// A world transform for one instance: model, instance, transform.
pub type InstanceChange = (usize, usize, Transform);

/// A world transform for one instance, as its factors.
pub type InstanceChangeView = (usize, usize, Seq<Factor>);

/// A record for one instance: model, instance, record.
pub type InstanceUpdate = (usize, usize, InstanceRaw);

/// What is to be done on the device for one model.
pub type ModelSync = (usize, SyncPlan<InstanceRaw>);

/// The states of the models of a scene, by model id.
pub type Models = Seq<ResourceState<InstanceRaw>>;

/// The world transforms with each transform as its factors.
pub open spec fn instance_changes_view(changes: Seq<InstanceChange>) -> Seq<InstanceChangeView> {
    Seq::new(changes.len(), |k: int| (changes[k].0, changes[k].1, changes[k].2@))
}

/// Those of the reported changes that name a model and an instance, in
/// their order. A change of a node that only groups has nothing to update.
pub open spec fn instance_changes(changes: Seq<ChangeView>) -> Seq<InstanceChangeView>
    decreases changes.len(),
{
    if changes.len() == 0 {
        Seq::empty()
    } else {
        let rest = instance_changes(changes.drop_last());
        match (changes.last().0, changes.last().1) {
            (Some(model_id), Some(instance_id)) => rest.push(
                (model_id, instance_id, changes.last().2),
            ),
            _ => rest,
        }
    }
}

/// `updates` holds, for each change, a record that `eval` may return for
/// its world transform, for the same model and instance.
pub open spec fn evaluated<E: Fn(&Transform) -> InstanceRaw>(
    eval: &E,
    changes: Seq<InstanceChangeView>,
    updates: Seq<InstanceUpdate>,
) -> bool {
    &&& updates.len() == changes.len()
    &&& forall|k: int|
        0 <= k < changes.len() ==> {
            &&& (#[trigger] updates[k]).0 == changes[k].0
            &&& updates[k].1 == changes[k].1
            &&& evaluates(eval, changes[k].2, updates[k].2)
        }
}

/// The models after each update, in order, has overwritten the record of
/// its instance. An update for an instance that its model does not have
/// changes nothing.
pub open spec fn applied(models: Models, updates: Seq<InstanceUpdate>) -> Models
    decreases updates.len(),
{
    if updates.len() == 0 {
        models
    } else {
        let before = applied(models, updates.drop_last());
        let (model_id, instance_id, raw) = updates.last();
        if model_id < before.len() {
            before.update(model_id as int, before[model_id as int].mutated(instance_id as int, raw))
        } else {
            before
        }
    }
}

/// One of the updates is for this model.
pub open spec fn touches(updates: Seq<InstanceUpdate>, model_id: usize) -> bool {
    exists|k: int| 0 <= k < updates.len() && (#[trigger] updates[k]).0 == model_id
}

/// One request for each of the first `n` models that an update is for, by
/// model id.
pub open spec fn touched_jobs(updates: Seq<InstanceUpdate>, n: nat) -> Seq<SyncJob>
    decreases n,
{
    if n == 0 {
        Seq::empty()
    } else {
        let rest = touched_jobs(updates, (n - 1) as nat);
        if touches(updates, (n - 1) as usize) {
            rest.push(SyncJob::Instance { model_id: (n - 1) as usize, instance_id: 0 })
        } else {
            rest
        }
    }
}

impl SyncJob {
    /// The model that the request names, where it names one.
    pub open spec fn model(self) -> Option<usize> {
        match self {
            SyncJob::Instance { model_id, .. } => Some(model_id),
            SyncJob::Instances { model_id, .. } => Some(model_id),
            _ => None,
        }
    }

    /// The request is one that is carried out, and on one of the first `n`
    /// models: a request for the records of such a model. Nothing carries
    /// out a request of another kind; a scene in which one waits cannot be
    /// updated.
    pub open spec fn runs_on(self, n: nat) -> bool {
        match self {
            SyncJob::Instance { model_id, .. } => model_id < n,
            _ => false,
        }
    }

    /// Why the request cannot be carried out on these models, where it is
    /// one for the records of one of them and cannot: the buffer of its
    /// model cannot grow to hold the records.
    pub open spec fn error(self, models: Models) -> Option<SceneError> {
        match self {
            SyncJob::Instance { model_id, .. } => {
                if model_id < models.len() && !models[model_id as int].can_sync() {
                    Some(
                        SceneError {
                            model_id,
                            error: if models[model_id as int].capacity == 0 {
                                SyncError::ZeroCapacity
                            } else {
                                SyncError::CapacityOverflow
                            },
                        },
                    )
                } else {
                    None
                }
            },
            _ => None,
        }
    }
}

/// The error of the first request that cannot be carried out, where there
/// is one.
pub open spec fn first_error(models: Models, queue: Seq<SyncJob>) -> Option<SceneError>
    decreases queue.len(),
{
    if queue.len() == 0 {
        None
    } else {
        match queue[0].error(models) {
            Some(e) => Some(e),
            None => first_error(models, queue.drop_first()),
        }
    }
}

/// The models after the requests have been carried out, in order.
pub open spec fn synced_by(models: Models, queue: Seq<SyncJob>) -> Models
    decreases queue.len(),
{
    if queue.len() == 0 {
        models
    } else {
        let before = synced_by(models, queue.drop_last());
        match queue.last() {
            SyncJob::Instance { model_id, .. } => {
                if model_id < before.len() {
                    before.update(model_id as int, before[model_id as int].synced())
                } else {
                    before
                }
            },
            _ => before,
        }
    }
}

/// What is handed out for the requests: for each, in order, its model and
/// the plan for it. The plan writes every record of the model, and asks for
/// a larger buffer only where no earlier request has done so.
pub open spec fn syncs_for(models: Models, queue: Seq<SyncJob>, syncs: Seq<ModelSync>) -> bool {
    &&& syncs.len() == queue.len()
    &&& forall|k: int|
        0 <= k < queue.len() ==> {
            let before = synced_by(models, queue.subrange(0, k));
            let model_id = (#[trigger] syncs[k]).0;
            &&& queue[k].model() == Some(model_id)
            &&& model_id < models.len()
            &&& syncs[k].1.records@ == models[model_id as int].cpu
            &&& syncs[k].1.recreate == (if before[model_id as int].needs_growth() {
                Some(before[model_id as int].synced().capacity as usize)
            } else {
                None
            })
        }
}

/// Updates change the records of models, not their number.
pub proof fn lemma_applied_len(models: Models, updates: Seq<InstanceUpdate>)
    ensures
        applied(models, updates).len() == models.len(),
    decreases updates.len(),
{
    if updates.len() > 0 {
        lemma_applied_len(models, updates.drop_last());
    }
}

/// Requests bring models up to date; they add and remove none, and leave
/// the records in main memory as they are.
pub proof fn lemma_synced_by_keeps(models: Models, queue: Seq<SyncJob>)
    ensures
        synced_by(models, queue).len() == models.len(),
        forall|m: int|
            0 <= m < models.len() ==> {
                ||| (#[trigger] synced_by(models, queue)[m]) == models[m]
                ||| synced_by(models, queue)[m] == models[m].synced()
            },
    decreases queue.len(),
{
    if queue.len() > 0 {
        lemma_synced_by_keeps(models, queue.drop_last());
        let before = synced_by(models, queue.drop_last());
        match queue.last() {
            SyncJob::Instance { model_id, .. } => {
                if model_id < before.len() {
                    lemma_grown_bounds(
                        models[model_id as int].capacity,
                        models[model_id as int].cpu.len(),
                    );
                    lemma_grown_bounds(
                        models[model_id as int].synced().capacity,
                        models[model_id as int].cpu.len(),
                    );
                }
            },
            _ => {},
        }
    }
}

/// One request for each touched model: the requests that an update leaves
/// name models in rising order, so none twice; each names a model that an
/// update was for, and each such model among the first `n` is named.
pub proof fn lemma_touched_jobs(updates: Seq<InstanceUpdate>, n: nat)
    requires
        n <= usize::MAX,
    ensures
        forall|i: int|
            0 <= i < touched_jobs(updates, n).len() ==> {
                let job = #[trigger] touched_jobs(updates, n)[i];
                &&& job matches SyncJob::Instance { model_id, instance_id }
                &&& instance_id == 0
                &&& model_id < n
                &&& touches(updates, model_id)
            },
        forall|i: int, j: int|
            0 <= i < j < touched_jobs(updates, n).len() ==> (#[trigger] touched_jobs(
                updates,
                n,
            )[i]).model().unwrap() < (#[trigger] touched_jobs(updates, n)[j]).model().unwrap(),
        forall|m: usize|
            m < n && touches(updates, m) ==> exists|i: int|
                0 <= i < touched_jobs(updates, n).len() && (#[trigger] touched_jobs(
                    updates,
                    n,
                )[i]).model() == Some(m),
    decreases n,
{
    if n > 0 {
        let rest = touched_jobs(updates, (n - 1) as nat);
        let all = touched_jobs(updates, n);
        let last = (n - 1) as usize;
        lemma_touched_jobs(updates, (n - 1) as nat);
        assert forall|i: int| 0 <= i < all.len() implies {
            let job = #[trigger] all[i];
            &&& job matches SyncJob::Instance { model_id, instance_id }
            &&& instance_id == 0
            &&& model_id < n
            &&& touches(updates, model_id)
        } by {
            if i < rest.len() {
                assert(all[i] == rest[i]);
            }
        }
        assert forall|i: int, j: int| 0 <= i < j < all.len() implies (#[trigger] all[i]).model().unwrap()
            < (#[trigger] all[j]).model().unwrap() by {
            assert(all[i] == rest[i]);
            if j < rest.len() {
                assert(all[j] == rest[j]);
            }
        }
        assert forall|m: usize| m < n && touches(updates, m) implies exists|i: int|
            0 <= i < all.len() && (#[trigger] all[i]).model() == Some(m) by {
            if m == last {
                assert(all[rest.len() as int].model() == Some(m));
            } else {
                let i = choose|i: int| 0 <= i < rest.len() && (#[trigger] rest[i]).model() == Some(m);
                assert(all[i] == rest[i]);
            }
        }
    }
}

/// Once the requests have been carried out, the device holds for each
/// model that a request for records names what main memory holds of it,
/// in a buffer with room for all of it.
pub proof fn lemma_synced_by_syncs(models: Models, queue: Seq<SyncJob>, k: int)
    requires
        0 <= k < queue.len(),
        queue[k] is Instance,
        queue[k].model().unwrap() < models.len(),
        models[queue[k].model().unwrap() as int].can_sync(),
    ensures
        synced_by(models, queue)[queue[k].model().unwrap() as int].is_synced(),
        synced_by(models, queue)[queue[k].model().unwrap() as int] == models[queue[k].model().unwrap() as int].synced(),
        !synced_by(models, queue)[queue[k].model().unwrap() as int].needs_growth(),
    decreases queue.len(),
{
    let m = queue[k].model().unwrap() as int;
    let before = synced_by(models, queue.drop_last());
    lemma_synced_by_keeps(models, queue.drop_last());
    lemma_synced_by_keeps(models, queue);
    lemma_sync_is_idempotent(models[m]);
    if k < queue.len() - 1 {
        assert(queue.drop_last()[k] == queue[k]);
        lemma_synced_by_syncs(models, queue.drop_last(), k);
    }
}

/// Carrying out the requests leaves a model that none of them names as it
/// was.
pub proof fn lemma_synced_by_leaves_others(models: Models, queue: Seq<SyncJob>, m: int)
    requires
        0 <= m < models.len(),
        forall|k: int| 0 <= k < queue.len() ==> (#[trigger] queue[k]).model() != Some(m as usize),
    ensures
        synced_by(models, queue)[m] == models[m],
    decreases queue.len(),
{
    if queue.len() > 0 {
        let rest = queue.drop_last();
        assert forall|k: int| 0 <= k < rest.len() implies (#[trigger] rest[k]).model() != Some(
            m as usize,
        ) by {
            assert(rest[k] == queue[k]);
        }
        lemma_synced_by_leaves_others(models, rest, m);
        lemma_synced_by_keeps(models, rest);
        assert(queue.last() == queue[queue.len() - 1]);
    }
}

/// An update more is for a model if it names the model or one of the
/// updates before it does.
pub proof fn lemma_touches_push(updates: Seq<InstanceUpdate>, update: InstanceUpdate, model_id: usize)
    ensures
        touches(updates.push(update), model_id) == (update.0 == model_id || touches(
            updates,
            model_id,
        )),
{
    let more = updates.push(update);
    if touches(more, model_id) {
        let k = choose|k: int| 0 <= k < more.len() && (#[trigger] more[k]).0 == model_id;
        if k < updates.len() {
            assert(updates[k].0 == model_id);
        }
    }
    if touches(updates, model_id) {
        let k = choose|k: int| 0 <= k < updates.len() && (#[trigger] updates[k]).0 == model_id;
        assert(more[k].0 == model_id);
    }
    if update.0 == model_id {
        assert(more[updates.len() as int].0 == model_id);
    }
}

/// Where no request has an error there is no first error.
pub proof fn lemma_first_error_none(models: Models, queue: Seq<SyncJob>)
    requires
        forall|k: int| 0 <= k < queue.len() ==> (#[trigger] queue[k]).error(models).is_none(),
    ensures
        first_error(models, queue).is_none(),
    decreases queue.len(),
{
    if queue.len() > 0 {
        let rest = queue.drop_first();
        assert forall|k: int| 0 <= k < rest.len() implies (#[trigger] rest[k]).error(
            models,
        ).is_none() by {
            assert(rest[k] == queue[k + 1]);
        }
        lemma_first_error_none(models, rest);
    }
}

/// The first error is that of the first request that has one.
pub proof fn lemma_first_error_found(models: Models, queue: Seq<SyncJob>, k: int)
    requires
        0 <= k < queue.len(),
        forall|j: int| 0 <= j < k ==> (#[trigger] queue[j]).error(models).is_none(),
        queue[k].error(models).is_some(),
    ensures
        first_error(models, queue) == queue[k].error(models),
    decreases queue.len(),
{
    if k > 0 {
        let rest = queue.drop_first();
        assert forall|j: int| 0 <= j < k - 1 implies (#[trigger] rest[j]).error(
            models,
        ).is_none() by {
            assert(rest[j] == queue[j + 1]);
        }
        assert(rest[k - 1] == queue[k]);
        lemma_first_error_found(models, rest, k - 1);
    }
}

/// What a traversal of nodes whose models are among the first `n` reports
/// names only such models.
pub proof fn lemma_changes_of_name_models(nodes: Seq<Node>, world: Seq<Factor>, n: nat)
    requires
        forall|i: int| 0 <= i < nodes.len() ==> (#[trigger] nodes[i]).models_below(n),
    ensures
        forall|k: int|
            0 <= k < changes_of(nodes, world).len() ==> ((#[trigger] changes_of(
                nodes,
                world,
            )[k]).0 matches Some(m) ==> m < n),
    decreases nodes,
{
    if nodes.len() > 0 {
        lemma_changes_of_name_models(nodes.drop_last(), world, n);
        lemma_changes_name_models(nodes.last(), world, n);
    }
}

/// What a traversal of a graph whose models are among the first `n`
/// reports names only such models.
pub proof fn lemma_changes_name_models(node: Node, parent: Seq<Factor>, n: nat)
    requires
        node.models_below(n),
    ensures
        forall|k: int|
            0 <= k < node.changes(parent).len() ==> ((#[trigger] node.changes(parent)[k]).0 matches Some(
                m,
            ) ==> m < n),
    decreases node,
{
    lemma_changes_of_name_models(node.children, parent + node.local(), n);
}

/// Of changes that name only models among the first `n`, those for
/// instances do so too.
pub proof fn lemma_instance_changes_name_models(changes: Seq<ChangeView>, n: nat)
    requires
        forall|k: int|
            0 <= k < changes.len() ==> ((#[trigger] changes[k]).0 matches Some(m) ==> m < n),
    ensures
        forall|j: int|
            0 <= j < instance_changes(changes).len() ==> (#[trigger] instance_changes(
                changes,
            )[j]).0 < n,
    decreases changes.len(),
{
    if changes.len() > 0 {
        let rest = changes.drop_last();
        assert forall|k: int| 0 <= k < rest.len() implies ((#[trigger] rest[k]).0 matches Some(m)
            ==> m < n) by {
            assert(rest[k] == changes[k]);
        }
        lemma_instance_changes_name_models(rest, n);
        let last = changes[changes.len() - 1];
        let before = instance_changes(rest);
        let all = instance_changes(changes);
        assert forall|j: int| 0 <= j < all.len() implies (#[trigger] all[j]).0 < n by {
            if j < before.len() {
                assert(all[j] == before[j]);
            } else {
                assert(last.0 matches Some(m) ==> m < n);
            }
        }
    }
}

} // verus!
