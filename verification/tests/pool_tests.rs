use zawgl::pool::{
    append_node_record_to_free_list, first_free_cell, free_list_step, get_first_free_list_node_ptr,
    set_first_free_list_node_ptr, FreeListStep, FreeNodeInfo,
};

#[test]
fn free_pointer_is_big_endian_after_first_pointer() {
    let mut header = vec![0xAAu8; 20];
    header[8..16].copy_from_slice(&0x0102030405060708u64.to_be_bytes());
    assert_eq!(get_first_free_list_node_ptr(&header), 0x0102030405060708);
    set_first_free_list_node_ptr(&mut header, 0xDEADBEEF00112233);
    assert_eq!(&header[8..16], &0xDEADBEEF00112233u64.to_be_bytes());
    assert_eq!(&header[0..8], &[0xAA; 8]);
    assert_eq!(&header[16..20], &[0xAA; 4]);
    assert_eq!(get_first_free_list_node_ptr(&header), 0xDEADBEEF00112233);
    set_first_free_list_node_ptr(&mut header, u64::MAX);
    assert_eq!(get_first_free_list_node_ptr(&header), u64::MAX);
}

#[test]
fn append_pushes_on_the_free_list() {
    let mut header = vec![0u8; 16];
    set_first_free_list_node_ptr(&mut header, 5);
    let mut next = 0u64;
    append_node_record_to_free_list(&mut header, 9, &mut next);
    assert_eq!(next, 5);
    assert_eq!(get_first_free_list_node_ptr(&header), 9);
}

#[test]
fn free_list_steps() {
    assert_eq!(free_list_step(true, 4, None), FreeListStep::CreateFirstNode);
    assert_eq!(free_list_step(false, 0, None), FreeListStep::CreateOverflowNode);
    let full = FreeNodeInfo { is_full: true, next_free_cells_node_ptr: 8 };
    let open = FreeNodeInfo { is_full: false, next_free_cells_node_ptr: 8 };
    assert_eq!(free_list_step(false, 4, Some(full)), FreeListStep::Advance(8));
    assert_eq!(free_list_step(false, 4, Some(open)), FreeListStep::Use(4));
    assert_eq!(free_list_step(false, 4, None), FreeListStep::Use(4));
}

#[test]
fn first_free_cell_is_first_inactive() {
    assert_eq!(first_free_cell(&vec![true, true, false, false]), Some(2));
    assert_eq!(first_free_cell(&vec![false]), Some(0));
    assert_eq!(first_free_cell(&vec![true, true]), None);
    assert_eq!(first_free_cell(&vec![]), None);
}

use std::cell::Cell as Counter;
use zawgl::pool::NodeRecordPool;

#[test]
fn pool_reads_each_record_once() {
    let reads = Counter::new(0);
    let mut pool: NodeRecordPool<String> = NodeRecordPool::new();
    let load = || {
        reads.set(reads.get() + 1);
        Some("stored".to_string())
    };
    assert_eq!(pool.load_node_record_ref(3, load), Some(&"stored".to_string()));
    assert_eq!(reads.get(), 1);
    let load_again = || {
        reads.set(reads.get() + 1);
        Some("other".to_string())
    };
    assert_eq!(pool.load_node_record_clone(3, load_again), Some("stored".to_string()));
    assert_eq!(reads.get(), 1);
    if let Some(r) = pool.load_node_record_mut(3, || None) {
        r.push_str("!");
    }
    assert_eq!(pool.records.get(&3), Some(&"stored!".to_string()));
    assert_eq!(pool.load_node_record_ref(4, || None), None);
    assert!(!pool.records.contains_key(&4));
    assert_eq!(pool.load_node_record_mut(5, || Some("five".to_string())).cloned(), Some("five".to_string()));
}

#[test]
fn pool_holds_created_records() {
    let mut pool: NodeRecordPool<u8> = NodeRecordPool::new();
    assert_eq!(pool.create_node_record(7, |_| Some(11)), Some(11));
    assert_eq!(pool.records.get(&11), Some(&7));
    assert_eq!(pool.create_node_record(8, |_| None), None);
    assert_eq!(pool.records.len(), 1);
}
