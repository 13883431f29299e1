//! A growable array of records with a copy in a buffer on the device.

use vstd::prelude::*;
use std::ops::Range;
use vstd::arithmetic::power2::{lemma2_to64, lemma_pow2_adds, lemma_pow2_unfold, pow2};

verus! {

/// What a buffer on the device is bound as.
#[derive(Clone, Copy, Debug, PartialEq, Eq, Structural)]
pub enum ResourceType {
    Vertex,
    Index,
    Uniform,
}

/// Why a buffer could not be brought up to date.
#[derive(Clone, Copy, Debug, PartialEq, Eq, Structural)]
pub enum SyncError {
    /// The buffer has room for no record, and doubling nothing gives nothing.
    ZeroCapacity,
    /// The capacity that would hold the records does not fit in a `usize`.
    CapacityOverflow,
}

/// What has to be done on the device to bring a buffer up to date.
#[derive(Debug)]
pub struct SyncPlan<T> {
    /// `Some(n)`: destroy the buffer and create one with room for `n`
    /// records in its place, before writing. `None`: keep the buffer.
    pub recreate: Option<usize>,
    /// The records to write into the buffer, from its start.
    pub records: Vec<T>,
}

/// A growable array of records in main memory together with what is known
/// of its copy in a buffer on the device. The device is not touched from
/// here. The caller creates the buffer for a new resource, with the
/// capacity and the records that the resource starts with; after that
/// `sync_gpu` hands out plans. What the model below calls `gpu` is what the
/// buffer holds once every plan handed out so far has been carried out.
pub struct Resource<T: Copy> {
    cpu_buffer: Vec<T>,
    size: usize,
    resource_type: ResourceType,
    gpu: Ghost<Seq<T>>,
}

/// The mathematical state of a `Resource`.
pub ghost struct ResourceState<T> {
    /// The records in main memory.
    pub cpu: Seq<T>,
    /// The records in the buffer on the device.
    pub gpu: Seq<T>,
    /// The number of records that the buffer on the device has room for.
    pub capacity: nat,
    pub resource_type: ResourceType,
}

/// The number of records that do not fit.
pub open spec fn shortfall(capacity: nat, len: nat) -> nat {
    if capacity < len {
        (len - capacity) as nat
    } else {
        0
    }
}

/// The first of `capacity`, `2 * capacity`, `4 * capacity`, ... that is at
/// least `len`; `capacity` itself where it is zero.
pub open spec fn grown(capacity: nat, len: nat) -> nat
    decreases shortfall(capacity, len),
{
    if capacity == 0 || capacity >= len {
        capacity
    } else {
        grown(2 * capacity, len)
    }
}

impl<T> ResourceState<T> {
    /// The buffer on the device is too small for the records.
    pub open spec fn needs_growth(self) -> bool {
        self.cpu.len() > self.capacity
    }

    /// Doubling the capacity reaches the number of records within `usize`.
    pub open spec fn can_sync(self) -> bool {
        !self.needs_growth() || (self.capacity > 0 && grown(self.capacity, self.cpu.len())
            <= usize::MAX)
    }

    /// The state after the records have been written to the device.
    pub open spec fn synced(self) -> Self {
        ResourceState {
            gpu: self.cpu,
            capacity: grown(self.capacity, self.cpu.len()),
            ..self
        }
    }

    /// The state after `items` have been appended in main memory.
    pub open spec fn appended(self, items: Seq<T>) -> Self {
        ResourceState { cpu: self.cpu + items, ..self }
    }

    /// The state after the record at `id` has been removed from main
    /// memory: the same state where there is no such record.
    pub open spec fn removed(self, id: int) -> Self {
        if 0 <= id < self.cpu.len() {
            ResourceState { cpu: self.cpu.remove(id), ..self }
        } else {
            self
        }
    }

    /// The state after the record at `id` in main memory has been replaced
    /// by `value`: the same state where there is no such record.
    pub open spec fn mutated(self, id: int, value: T) -> Self {
        if 0 <= id < self.cpu.len() {
            ResourceState { cpu: self.cpu.update(id, value), ..self }
        } else {
            self
        }
    }

    /// The state that `sync_gpu` leaves: brought up to date where that can
    /// be done, as it was where not.
    pub open spec fn after_sync(self) -> Self {
        if self.can_sync() {
            self.synced()
        } else {
            self
        }
    }

    /// The buffer on the device holds what main memory holds.
    pub open spec fn is_synced(self) -> bool {
        self.gpu == self.cpu
    }

    /// What the device holds fits in the room that its buffer has.
    pub open spec fn well_formed(self) -> bool {
        self.gpu.len() <= self.capacity
    }
}

impl<T: Copy> View for Resource<T> {
    type V = ResourceState<T>;

    closed spec fn view(&self) -> ResourceState<T> {
        ResourceState {
            cpu: self.cpu_buffer@,
            gpu: self.gpu@,
            capacity: self.size as nat,
            resource_type: self.resource_type,
        }
    }
}

/// A capacity never shrinks by growing.
pub proof fn lemma_grown_bounds(capacity: nat, len: nat)
    ensures
        grown(capacity, len) >= capacity,
        capacity > 0 ==> grown(capacity, len) >= len,
        capacity >= len ==> grown(capacity, len) == capacity,
    decreases shortfall(capacity, len),
{
    if capacity == 0 || capacity >= len {
    } else {
        lemma_grown_bounds(2 * capacity, len);
    }
}

/// How often `capacity` is doubled on the way to `grown(capacity, len)`.
pub open spec fn doublings(capacity: nat, len: nat) -> nat
    decreases shortfall(capacity, len),
{
    if capacity == 0 || capacity >= len {
        0
    } else {
        1 + doublings(2 * capacity, len)
    }
}

/// Growth goes by powers of two: a positive capacity grows to itself times
/// two to the number of doublings, and one doubling less would not have
/// held the records.
pub proof fn lemma_grown_is_power_of_two_multiple(capacity: nat, len: nat)
    requires
        capacity > 0,
    ensures
        grown(capacity, len) == pow2(doublings(capacity, len)) * capacity,
        doublings(capacity, len) > 0 ==> pow2((doublings(capacity, len) - 1) as nat) * capacity
            < len,
    decreases shortfall(capacity, len),
{
    lemma2_to64();
    if capacity >= len {
        assert(pow2(0) * capacity == capacity);
    } else {
        lemma_grown_is_power_of_two_multiple(2 * capacity, len);
        let k = doublings(2 * capacity, len);
        assert(doublings(capacity, len) == k + 1);
        assert(grown(capacity, len) == grown(2 * capacity, len));
        lemma_pow2_unfold(k + 1);
        assert(pow2(k + 1) == 2 * pow2(k));
        assert(pow2(k + 1) * capacity == pow2(k) * (2 * capacity)) by (nonlinear_arith)
            requires
                pow2(k + 1) == 2 * pow2(k),
        ;
        if k > 0 {
            lemma_pow2_unfold(k);
            assert(pow2(k) * capacity == pow2((k - 1) as nat) * (2 * capacity))
                by (nonlinear_arith)
                requires
                    pow2(k) == 2 * pow2((k - 1) as nat),
            ;
        }
    }
}

/// Growth: once a buffer with room for at least one record has been brought
/// up to date, its capacity is the capacity before times a power of two and
/// holds every record.
pub proof fn lemma_sync_grows_by_doubling<T>(s: ResourceState<T>)
    requires
        s.capacity > 0,
    ensures
        s.synced().capacity == pow2(doublings(s.capacity, s.cpu.len())) * s.capacity,
        s.synced().capacity >= s.cpu.len(),
        s.synced().well_formed(),
{
    lemma_grown_is_power_of_two_multiple(s.capacity, s.cpu.len());
    lemma_grown_bounds(s.capacity, s.cpu.len());
}

/// Growth over time: a capacity that is the first capacity `first` times a
/// power of two is so again, with a power at least as high, after the
/// buffer has been brought up to date.
pub proof fn lemma_sync_keeps_power_of_two_multiple<T>(s: ResourceState<T>, first: nat, k: nat)
    requires
        s.capacity > 0,
        s.capacity == pow2(k) * first,
    ensures
        s.synced().capacity == pow2(k + doublings(s.capacity, s.cpu.len())) * first,
{
    let d = doublings(s.capacity, s.cpu.len());
    lemma_grown_is_power_of_two_multiple(s.capacity, s.cpu.len());
    lemma_pow2_adds(k, d);
    assert(pow2(d) * (pow2(k) * first) == (pow2(k) * pow2(d)) * first) by (nonlinear_arith);
}

/// No operation makes the buffer on the device smaller.
pub proof fn lemma_capacity_never_shrinks<T>(s: ResourceState<T>, items: Seq<T>, id: int, value: T)
    ensures
        s.appended(items).capacity >= s.capacity,
        s.removed(id).capacity >= s.capacity,
        s.mutated(id, value).capacity >= s.capacity,
        s.synced().capacity >= s.capacity,
        s.after_sync().capacity >= s.capacity,
{
    lemma_grown_bounds(s.capacity, s.cpu.len());
}

/// Every operation leaves what the device holds within the room of its
/// buffer.
pub proof fn lemma_operations_keep_well_formed<T>(
    s: ResourceState<T>,
    items: Seq<T>,
    id: int,
    value: T,
)
    requires
        s.well_formed(),
    ensures
        s.appended(items).well_formed(),
        s.removed(id).well_formed(),
        s.mutated(id, value).well_formed(),
        s.after_sync().well_formed(),
{
    lemma_grown_bounds(s.capacity, s.cpu.len());
}

/// Bringing a buffer up to date twice is bringing it up to date once: the
/// second time nothing grows, and main memory and the device stay as the
/// first left them.
pub proof fn lemma_sync_is_idempotent<T>(s: ResourceState<T>)
    ensures
        s.after_sync().after_sync() == s.after_sync(),
        s.after_sync().cpu == s.cpu,
        s.can_sync() ==> {
            &&& s.synced().is_synced()
            &&& s.synced().can_sync()
            &&& !s.synced().needs_growth()
            &&& s.synced().synced() == s.synced()
        },
{
    lemma_grown_bounds(s.capacity, s.cpu.len());
    lemma_grown_bounds(s.synced().capacity, s.cpu.len());
}

impl<T: Copy> Resource<T> {
    /// An empty array with a buffer of room for `size` records.
    pub fn new_sized(size: usize, resource_type: ResourceType) -> (r: Self)
        ensures
            r@ == (ResourceState {
                cpu: Seq::<T>::empty(),
                gpu: Seq::<T>::empty(),
                capacity: size as nat,
                resource_type,
            }),
            r@.well_formed(),
    {
        Resource {
            cpu_buffer: Vec::with_capacity(size),
            size,
            resource_type,
            gpu: Ghost(Seq::empty()),
        }
    }

    /// An array of the given records with a buffer that holds exactly them.
    pub fn new_with_data(cpu_buffer: Vec<T>, resource_type: ResourceType) -> (r: Self)
        ensures
            r@ == (ResourceState {
                cpu: cpu_buffer@,
                gpu: cpu_buffer@,
                capacity: cpu_buffer@.len(),
                resource_type,
            }),
            r@.well_formed(),
            r@.is_synced(),
    {
        let size: usize = cpu_buffer.len();
        let ghost gpu = cpu_buffer@;
        Resource { cpu_buffer, size, resource_type, gpu: Ghost(gpu) }
    }

    /// Appends records in main memory. The device is left as it is.
    pub fn add_to_buffer(&mut self, items: Vec<T>)
        ensures
            final(self)@ == old(self)@.appended(items@),
    {
        let mut items = items;
        self.cpu_buffer.append(&mut items);
    }

    /// Removes the record at `id` in main memory, where there is one; the
    /// records behind it move down by one. The device is left as it is.
    pub fn remove_from_buffer(&mut self, id: usize)
        ensures
            final(self)@ == old(self)@.removed(id as int),
    {
        if id < self.cpu_buffer.len() {
            self.cpu_buffer.remove(id);
        }
    }

    /// Replaces the record at `id` in main memory, where there is one, and
    /// returns the record that stood there. The device is left as it is.
    pub fn mutate_at(&mut self, id: usize, value: T) -> (r: Option<T>)
        ensures
            final(self)@ == old(self)@.mutated(id as int, value),
            r == (if id < old(self)@.cpu.len() {
                Some(old(self)@.cpu[id as int])
            } else {
                None
            }),
    {
        if id < self.cpu_buffer.len() {
            let previous = self.cpu_buffer[id];
            self.cpu_buffer[id] = value;
            Some(previous)
        } else {
            None
        }
    }

    /// The record at `id` in main memory, where there is one.
    pub fn local_at(&self, id: usize) -> (r: Option<T>)
        ensures
            r == (if id < self@.cpu.len() {
                Some(self@.cpu[id as int])
            } else {
                None
            }),
    {
        if id < self.cpu_buffer.len() {
            Some(self.cpu_buffer[id])
        } else {
            None
        }
    }

    /// The number of records in main memory.
    pub fn get_cpu_length(&self) -> (r: usize)
        ensures
            r == self@.cpu.len(),
    {
        self.cpu_buffer.len()
    }

    /// The number of records that the buffer on the device has room for.
    pub fn get_gpu_length(&self) -> (r: usize)
        ensures
            r == self@.capacity,
    {
        self.size
    }

    pub fn resource_type(&self) -> (r: ResourceType)
        ensures
            r == self@.resource_type,
    {
        self.resource_type
    }

    /// A copy of the records of a range in main memory, for a write of a
    /// part of the buffer: `Some` exactly where the range lies within the
    /// records.
    pub fn partial_records(&self, range: Range<usize>) -> (r: Option<Vec<T>>)
        ensures
            r.is_some() == (range.start <= range.end <= self@.cpu.len()),
            r matches Some(records) ==> records@ == self@.cpu.subrange(
                range.start as int,
                range.end as int,
            ),
    {
        if range.start > range.end || range.end > self.cpu_buffer.len() {
            return None;
        }
        let mut out: Vec<T> = Vec::new();
        let mut i: usize = range.start;
        while i < range.end
            invariant
                range.start <= i <= range.end <= self.cpu_buffer@.len(),
                out@ == self.cpu_buffer@.subrange(range.start as int, i as int),
            decreases range.end - i,
        {
            out.push(self.cpu_buffer[i]);
            proof {
                assert(out@ =~= self.cpu_buffer@.subrange(range.start as int, i + 1));
            }
            i += 1;
        }
        Some(out)
    }

    /// A copy of the records in main memory.
    pub fn records(&self) -> (r: Vec<T>)
        ensures
            r@ == self@.cpu,
    {
        let mut out: Vec<T> = Vec::new();
        let n: usize = self.cpu_buffer.len();
        let mut i: usize = 0;
        while i < n
            invariant
                n == self.cpu_buffer@.len(),
                i <= n,
                out@ == self.cpu_buffer@.subrange(0, i as int),
            decreases n - i,
        {
            out.push(self.cpu_buffer[i]);
            proof {
                assert(out@ =~= self.cpu_buffer@.subrange(0, i + 1));
            }
            i += 1;
        }
        proof {
            assert(out@ =~= self.cpu_buffer@);
        }
        out
    }

    /// The capacity that holds the records: the capacity that is, doubled
    /// until they fit. `None` where doubling cannot get there.
    fn grown_capacity(&self) -> (r: Option<usize>)
        ensures
            r.is_some() == self@.can_sync(),
            r matches Some(size) ==> size == grown(self@.capacity, self@.cpu.len()),
    {
        let len: usize = self.cpu_buffer.len();
        let mut size: usize = self.size;
        proof {
            lemma_grown_bounds(self.size as nat, len as nat);
        }
        if size >= len {
            return Some(size);
        }
        if size == 0 {
            return None;
        }
        while size < len
            invariant
                size > 0,
                0 < self.size < len,
                len == self.cpu_buffer@.len(),
                grown(size as nat, len as nat) == grown(self.size as nat, len as nat),
            decreases shortfall(size as nat, len as nat),
        {
            match size.checked_mul(2) {
                Some(doubled) => {
                    size = doubled;
                },
                None => {
                    proof {
                        lemma_grown_bounds(2 * size as nat, len as nat);
                    }
                    return None;
                },
            }
        }
        Some(size)
    }

    /// Whether `sync_gpu` would succeed.
    pub fn can_sync(&self) -> (r: bool)
        ensures
            r == self@.can_sync(),
    {
        self.grown_capacity().is_some()
    }

    /// Brings the device up to date with main memory. Where the buffer is
    /// too small its capacity is doubled until the records fit, and the plan
    /// asks for a buffer of that capacity; the plan then writes every record.
    /// Where doubling cannot get there nothing changes.
    pub fn sync_gpu(&mut self) -> (r: Result<SyncPlan<T>, SyncError>)
        ensures
            match r {
                Ok(plan) => {
                    &&& old(self)@.can_sync()
                    &&& final(self)@ == old(self)@.synced()
                    &&& final(self)@.is_synced()
                    &&& final(self)@.capacity >= final(self)@.cpu.len()
                    &&& plan.records@ == old(self)@.cpu
                    &&& plan.recreate == (if old(self)@.needs_growth() {
                        Some(final(self)@.capacity as usize)
                    } else {
                        None
                    })
                },
                Err(e) => {
                    &&& !old(self)@.can_sync()
                    &&& final(self)@ == old(self)@
                    &&& e == (if old(self)@.capacity == 0 {
                        SyncError::ZeroCapacity
                    } else {
                        SyncError::CapacityOverflow
                    })
                },
            },
    {
        let size: usize = match self.grown_capacity() {
            Some(size) => size,
            None => {
                return Err(
                    if self.size == 0 {
                        SyncError::ZeroCapacity
                    } else {
                        SyncError::CapacityOverflow
                    },
                );
            },
        };
        let recreate: Option<usize> = if self.size < self.cpu_buffer.len() {
            Some(size)
        } else {
            None
        };
        let records = self.records();
        self.size = size;
        self.gpu = Ghost(self.cpu_buffer@);
        proof {
            lemma_grown_bounds(old(self)@.capacity, old(self)@.cpu.len());
        }
        Ok(SyncPlan { recreate, records })
    }
}

} // verus!
