use scenegraph::renderer::resource::{Resource, ResourceType, SyncError};

#[test]
fn new_with_data_has_capacity_of_its_length() {
    let r: Resource<u32> = Resource::new_with_data(vec![1, 2, 3], ResourceType::Vertex);
    assert_eq!(r.get_cpu_length(), 3);
    assert_eq!(r.get_gpu_length(), 3);
    assert_eq!(r.records(), vec![1, 2, 3]);
    assert_eq!(r.resource_type(), ResourceType::Vertex);
}

#[test]
fn new_sized_starts_empty() {
    let r: Resource<u32> = Resource::new_sized(16, ResourceType::Uniform);
    assert_eq!(r.get_cpu_length(), 0);
    assert_eq!(r.get_gpu_length(), 16);
    assert_eq!(r.local_at(0), None);
    assert_eq!(r.resource_type(), ResourceType::Uniform);
}

#[test]
fn append_extends_main_memory_only() {
    let mut r: Resource<u32> = Resource::new_with_data(vec![1], ResourceType::Index);
    r.add_to_buffer(vec![2, 3]);
    assert_eq!(r.records(), vec![1, 2, 3]);
    assert_eq!(r.get_gpu_length(), 1);
}

#[test]
fn removal_renumbers_the_records_behind() {
    let mut r: Resource<u32> = Resource::new_with_data(vec![10, 11, 12], ResourceType::Vertex);
    r.remove_from_buffer(1);
    assert_eq!(r.get_cpu_length(), 2);
    assert_eq!(r.local_at(0), Some(10));
    assert_eq!(r.local_at(1), Some(12));
    assert_eq!(r.local_at(2), None);
}

#[test]
fn removal_out_of_bounds_changes_nothing() {
    let mut r: Resource<u32> = Resource::new_with_data(vec![10, 11], ResourceType::Vertex);
    r.remove_from_buffer(2);
    assert_eq!(r.records(), vec![10, 11]);
    r.remove_from_buffer(usize::MAX);
    assert_eq!(r.records(), vec![10, 11]);
}

#[test]
fn mutate_replaces_in_place() {
    let mut r: Resource<u32> = Resource::new_with_data(vec![10, 11, 12], ResourceType::Vertex);
    assert_eq!(r.mutate_at(1, 99), Some(11));
    assert_eq!(r.records(), vec![10, 99, 12]);
}

#[test]
fn mutate_out_of_bounds_is_absent() {
    let mut r: Resource<u32> = Resource::new_with_data(vec![10, 11, 12], ResourceType::Vertex);
    assert_eq!(r.mutate_at(3, 99), None);
    assert_eq!(r.records(), vec![10, 11, 12]);
}

#[test]
fn read_in_and_out_of_bounds() {
    let r: Resource<u32> = Resource::new_with_data(vec![10, 11], ResourceType::Vertex);
    assert_eq!(r.local_at(1), Some(11));
    assert_eq!(r.local_at(2), None);
}

#[test]
fn sync_without_growth_keeps_the_buffer() {
    let mut r: Resource<u32> = Resource::new_sized(4, ResourceType::Vertex);
    r.add_to_buffer(vec![1, 2, 3, 4]);
    let plan = r.sync_gpu().unwrap();
    assert_eq!(plan.recreate, None);
    assert_eq!(plan.records, vec![1, 2, 3, 4]);
    assert_eq!(r.get_gpu_length(), 4);
}

#[test]
fn sync_doubles_once() {
    let mut r: Resource<u32> = Resource::new_with_data(vec![1], ResourceType::Vertex);
    r.add_to_buffer(vec![2]);
    let plan = r.sync_gpu().unwrap();
    assert_eq!(plan.recreate, Some(2));
    assert_eq!(plan.records, vec![1, 2]);
    assert_eq!(r.get_gpu_length(), 2);
}

#[test]
fn sync_doubles_until_the_records_fit() {
    let mut r: Resource<u32> = Resource::new_sized(3, ResourceType::Vertex);
    r.add_to_buffer(vec![0; 13]);
    assert!(r.can_sync());
    let plan = r.sync_gpu().unwrap();
    // 3, 6, 12, 24
    assert_eq!(plan.recreate, Some(24));
    assert_eq!(plan.records.len(), 13);
    assert_eq!(r.get_gpu_length(), 24);
    assert_eq!(r.get_gpu_length() % 3, 0);
    assert!((r.get_gpu_length() / 3).is_power_of_two());
}

#[test]
fn sync_twice_is_sync_once() {
    let mut r: Resource<u32> = Resource::new_sized(2, ResourceType::Vertex);
    r.add_to_buffer(vec![5, 6, 7]);
    let first = r.sync_gpu().unwrap();
    assert_eq!(first.recreate, Some(4));
    let second = r.sync_gpu().unwrap();
    assert_eq!(second.recreate, None);
    assert_eq!(second.records, first.records);
    assert_eq!(r.records(), vec![5, 6, 7]);
    assert_eq!(r.get_gpu_length(), 4);
}

#[test]
fn capacity_never_shrinks() {
    let mut r: Resource<u32> = Resource::new_sized(2, ResourceType::Vertex);
    let mut seen = r.get_gpu_length();
    r.add_to_buffer(vec![1, 2, 3, 4, 5]);
    assert!(r.get_gpu_length() >= seen);
    r.sync_gpu().unwrap();
    assert_eq!(r.get_gpu_length(), 8);
    seen = r.get_gpu_length();
    r.remove_from_buffer(0);
    r.remove_from_buffer(0);
    r.remove_from_buffer(0);
    r.remove_from_buffer(0);
    assert_eq!(r.get_gpu_length(), seen);
    let plan = r.sync_gpu().unwrap();
    assert_eq!(plan.recreate, None);
    assert_eq!(plan.records, vec![5]);
    assert_eq!(r.get_gpu_length(), seen);
    r.mutate_at(0, 9);
    assert_eq!(r.get_gpu_length(), seen);
}

#[test]
fn zero_capacity_cannot_grow() {
    let mut r: Resource<u32> = Resource::new_sized(0, ResourceType::Vertex);
    r.add_to_buffer(vec![7]);
    assert!(!r.can_sync());
    assert_eq!(r.sync_gpu().unwrap_err(), SyncError::ZeroCapacity);
    assert_eq!(r.get_gpu_length(), 0);
    assert_eq!(r.records(), vec![7]);
}

#[test]
fn zero_capacity_with_no_record_is_in_sync() {
    let mut r: Resource<u32> = Resource::new_with_data(vec![], ResourceType::Vertex);
    assert!(r.can_sync());
    let plan = r.sync_gpu().unwrap();
    assert_eq!(plan.recreate, None);
    assert!(plan.records.is_empty());
    assert_eq!(r.get_gpu_length(), 0);
}

#[test]
fn capacity_that_cannot_be_doubled_is_an_error() {
    let size = usize::MAX / 2 + 2;
    let mut r: Resource<()> = Resource::new_sized(size, ResourceType::Vertex);
    r.add_to_buffer(vec![(); size + 1]);
    assert!(!r.can_sync());
    assert_eq!(r.sync_gpu().unwrap_err(), SyncError::CapacityOverflow);
    assert_eq!(r.get_gpu_length(), size);
    assert_eq!(r.get_cpu_length(), size + 1);
}

#[test]
fn partial_records_are_the_records_of_the_range() {
    let r: Resource<u32> = Resource::new_with_data(vec![10, 11, 12, 13], ResourceType::Vertex);
    assert_eq!(r.partial_records(1..3), Some(vec![11, 12]));
    assert_eq!(r.partial_records(0..4), Some(vec![10, 11, 12, 13]));
    assert_eq!(r.partial_records(4..4), Some(vec![]));
    assert_eq!(r.partial_records(2..2), Some(vec![]));
}

#[test]
fn partial_records_outside_the_records_are_absent() {
    let r: Resource<u32> = Resource::new_with_data(vec![10, 11, 12, 13], ResourceType::Vertex);
    assert_eq!(r.partial_records(3..5), None);
    assert_eq!(r.partial_records(5..6), None);
    assert_eq!(r.partial_records(0..usize::MAX), None);
    let backwards = std::ops::Range { start: 3, end: 1 };
    assert_eq!(r.partial_records(backwards), None);
    let empty: Resource<u32> = Resource::new_sized(4, ResourceType::Vertex);
    assert_eq!(empty.partial_records(0..1), None);
    assert_eq!(empty.partial_records(0..0), Some(vec![]));
}
