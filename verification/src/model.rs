//! A model: the owner of the records of its instances.

use vstd::prelude::*;
use std::ops::Range;
use crate::renderer::instance::{evaluates, evaluator, Instance, InstanceRaw};
use crate::renderer::resource::{Resource, ResourceState, ResourceType, SyncError, SyncPlan};
use crate::transform::Transform;

verus! {

/// A model as the scene sees it: the owner of the records of its instances.
/// An instance is known by its place among the records.
pub struct Model {
    instance_resource: Resource<InstanceRaw>,
}

impl View for Model {
    type V = ResourceState<InstanceRaw>;

    closed spec fn view(&self) -> ResourceState<InstanceRaw> {
        self.instance_resource@
    }
}

/// `shift` accepts every record.
pub open spec fn shifter<S: Fn(InstanceRaw) -> InstanceRaw>(shift: &S) -> bool {
    forall|raw: InstanceRaw| #[trigger] call_requires(*shift, (raw,))
}

/// What the record of a new instance may be: `shift` applied to the last
/// record, or to the record of the default placement where there is none.
pub open spec fn next_instance<E: Fn(&Transform) -> InstanceRaw, S: Fn(InstanceRaw) -> InstanceRaw>(
    instances: Seq<InstanceRaw>,
    eval: &E,
    shift: &S,
    raw: InstanceRaw,
) -> bool {
    exists|seed: InstanceRaw|
        {
            &&& #[trigger] call_ensures(*shift, (seed,), raw)
            &&& if instances.len() > 0 {
                seed == instances.last()
            } else {
                evaluates(eval, Instance::spec_default().factors(), seed)
            }
        }
}

impl Model {
    /// A model with one instance, in the default placement. Its buffer on
    /// the device holds that one record.
    pub fn load<E: Fn(&Transform) -> InstanceRaw>(eval: &E) -> (r: Self)
        requires
            evaluator(eval),
        ensures
            r@.cpu.len() == 1,
            evaluates(eval, Instance::spec_default().factors(), r@.cpu[0]),
            r@.gpu == r@.cpu,
            r@.capacity == 1,
            r@.resource_type == ResourceType::Vertex,
    {
        let raw = Instance::default().to_raw(eval);
        let mut instances: Vec<InstanceRaw> = Vec::new();
        instances.push(raw);
        Model { instance_resource: Resource::new_with_data(instances, ResourceType::Vertex) }
    }

    /// A model with no instance yet, and a buffer on the device with room
    /// for `size` records.
    pub fn load_sized(size: usize) -> (r: Self)
        ensures
            r@ == (ResourceState {
                cpu: Seq::<InstanceRaw>::empty(),
                gpu: Seq::<InstanceRaw>::empty(),
                capacity: size as nat,
                resource_type: ResourceType::Vertex,
            }),
    {
        Model { instance_resource: Resource::new_sized(size, ResourceType::Vertex) }
    }

    /// The record that a new instance starts from: the last one, or that of
    /// the default placement where there is none.
    pub fn seed_instance<E: Fn(&Transform) -> InstanceRaw>(&self, eval: &E) -> (r: InstanceRaw)
        requires
            evaluator(eval),
        ensures
            self@.cpu.len() > 0 ==> r == self@.cpu.last(),
            self@.cpu.len() == 0 ==> evaluates(eval, Instance::spec_default().factors(), r),
    {
        let n: usize = self.instance_resource.get_cpu_length();
        let last = if n > 0 {
            self.instance_resource.local_at(n - 1)
        } else {
            None
        };
        match last {
            Some(raw) => raw,
            None => Instance::default().to_raw(eval),
        }
    }

    /// Appends `raw` as the record of a new instance and returns the
    /// instance's id. The device is left as it is.
    pub fn push_instance(&mut self, raw: InstanceRaw) -> (id: usize)
        ensures
            final(self)@ == old(self)@.appended(seq![raw]),
            id == old(self)@.cpu.len(),
    {
        let id: usize = self.instance_resource.get_cpu_length();
        let mut items: Vec<InstanceRaw> = Vec::new();
        items.push(raw);
        self.instance_resource.add_to_buffer(items);
        id
    }

    /// Adds an instance beside the last one and returns its id: `shift`
    /// moves a copy of the last record one unit along x. The device is left
    /// as it is.
    pub fn add_instance<E: Fn(&Transform) -> InstanceRaw, S: Fn(InstanceRaw) -> InstanceRaw>(
        &mut self,
        eval: &E,
        shift: &S,
    ) -> (id: usize)
        requires
            evaluator(eval),
            shifter(shift),
        ensures
            id == old(self)@.cpu.len(),
            final(self)@.cpu.len() == old(self)@.cpu.len() + 1,
            final(self)@ == old(self)@.appended(seq![final(self)@.cpu.last()]),
            next_instance(old(self)@.cpu, eval, shift, final(self)@.cpu.last()),
    {
        let seed = self.seed_instance(eval);
        let raw = shift(seed);
        let id = self.push_instance(raw);
        proof {
            assert(self@.cpu.last() == raw);
        }
        id
    }

    /// Removes the last instance, where there is one. The device is left as
    /// it is.
    pub fn remove_instance(&mut self)
        ensures
            final(self)@ == old(self)@.removed(old(self)@.cpu.len() - 1),
    {
        let n: usize = self.instance_resource.get_cpu_length();
        if n > 0 {
            self.instance_resource.remove_from_buffer(n - 1);
        }
    }

    /// Overwrites the record of instance `id`, where there is such an
    /// instance. The device is left as it is.
    pub fn change_instance_raw(&mut self, id: usize, raw: InstanceRaw)
        ensures
            final(self)@ == old(self)@.mutated(id as int, raw),
    {
        let _ = self.instance_resource.mutate_at(id, raw);
    }

    /// The number of instances.
    pub fn get_num_instances(&self) -> (r: usize)
        ensures
            r == self@.cpu.len(),
    {
        self.instance_resource.get_cpu_length()
    }

    /// The record of instance `id`, where there is such an instance.
    pub fn instance_at(&self, id: usize) -> (r: Option<InstanceRaw>)
        ensures
            r == (if id < self@.cpu.len() {
                Some(self@.cpu[id as int])
            } else {
                None
            }),
    {
        self.instance_resource.local_at(id)
    }

    /// A copy of the records of all instances, by instance id.
    pub fn records(&self) -> (r: Vec<InstanceRaw>)
        ensures
            r@ == self@.cpu,
    {
        self.instance_resource.records()
    }

    /// A copy of the records of a range of instances, for a write of a part
    /// of the buffer: `Some` exactly where the range lies within the
    /// instances.
    pub fn partial_records(&self, range: Range<usize>) -> (r: Option<Vec<InstanceRaw>>)
        ensures
            r.is_some() == (range.start <= range.end <= self@.cpu.len()),
            r matches Some(records) ==> records@ == self@.cpu.subrange(
                range.start as int,
                range.end as int,
            ),
    {
        self.instance_resource.partial_records(range)
    }

    /// What the buffer on the device is bound as.
    pub fn resource_type(&self) -> (r: ResourceType)
        ensures
            r == self@.resource_type,
    {
        self.instance_resource.resource_type()
    }

    /// The number of records that the buffer on the device has room for.
    pub fn get_gpu_length(&self) -> (r: usize)
        ensures
            r == self@.capacity,
    {
        self.instance_resource.get_gpu_length()
    }

    /// Whether `sync_instances` would succeed.
    pub fn can_sync(&self) -> (r: bool)
        ensures
            r == self@.can_sync(),
    {
        self.instance_resource.can_sync()
    }

    /// Brings the records on the device up to date; see `Resource::sync_gpu`.
    pub fn sync_instances(&mut self) -> (r: Result<SyncPlan<InstanceRaw>, SyncError>)
        ensures
            match r {
                Ok(plan) => {
                    &&& old(self)@.can_sync()
                    &&& final(self)@ == old(self)@.synced()
                    &&& plan.records@ == old(self)@.cpu
                    &&& plan.recreate == (if old(self)@.needs_growth() {
                        Some(final(self)@.capacity as usize)
                    } else {
                        None
                    })
                },
                Err(e) => {
                    &&& !old(self)@.can_sync()
                    &&& final(self)@ == old(self)@
                    &&& e == (if old(self)@.capacity == 0 {
                        SyncError::ZeroCapacity
                    } else {
                        SyncError::CapacityOverflow
                    })
                },
            },
    {
        self.instance_resource.sync_gpu()
    }
}

} // verus!
