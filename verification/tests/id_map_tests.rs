use vector_index::error::VectorIndexError;
use vector_index::id_map::IdMap;

#[test]
fn new_map_is_empty() {
    let m = IdMap::new();
    assert_eq!(m.len(), 0);
    assert!(m.is_empty());
    assert_eq!(m.peek_next_slot(), 0);
    assert_eq!(m.lookup_slot(7), None);
    assert_eq!(m.lookup_node(0), None);
}

#[test]
fn bind_then_lookup_both_ways() {
    let mut m = IdMap::new();
    let base = m.allocate_block(2);
    assert_eq!(base, 0);
    assert_eq!(m.peek_next_slot(), 2);
    m.bind(10, 0);
    m.bind(20, 1);
    assert_eq!(m.len(), 2);
    assert!(!m.is_empty());
    assert_eq!(m.lookup_slot(10), Some(0));
    assert_eq!(m.lookup_slot(20), Some(1));
    assert_eq!(m.lookup_node(0), Some(10));
    assert_eq!(m.lookup_node(1), Some(20));
    assert_eq!(m.lookup_slot(30), None);
    assert_eq!(m.lookup_node(2), None);
}

#[test]
fn lookup_round_trip_holds_for_every_mapped_id() {
    let mut m = IdMap::new();
    let nodes = [905u64, 3, 77, 12, 4_000_000_000];
    let slots = m.assign_sorted(&nodes).unwrap();
    for (i, node) in nodes.iter().enumerate() {
        let slot = m.lookup_slot(*node).unwrap();
        assert_eq!(slot, slots[i]);
        assert_eq!(m.lookup_node(slot), Some(*node));
    }
    for slot in 0..5u32 {
        let node = m.lookup_node(slot).unwrap();
        assert_eq!(m.lookup_slot(node), Some(slot));
    }
}

#[test]
fn remove_by_node_takes_both_directions_out() {
    let mut m = IdMap::new();
    m.allocate_block(2);
    m.bind(10, 0);
    m.bind(20, 1);
    assert_eq!(m.remove_by_node(10), Some(0));
    assert_eq!(m.lookup_slot(10), None);
    assert_eq!(m.lookup_node(0), None);
    assert_eq!(m.lookup_node(1), Some(20));
    assert_eq!(m.len(), 1);
    assert_eq!(m.peek_next_slot(), 2);
    assert_eq!(m.remove_by_node(10), None);
    assert_eq!(m.len(), 1);
}

#[test]
fn allocate_and_release_move_the_counter() {
    let mut m = IdMap::new();
    assert_eq!(m.allocate_block(3), 0);
    assert_eq!(m.allocate_block(4), 3);
    assert_eq!(m.peek_next_slot(), 7);
    m.release_block(4);
    assert_eq!(m.peek_next_slot(), 3);
    assert_eq!(m.allocate_block(0), 3);
    assert_eq!(m.peek_next_slot(), 3);
}

#[test]
fn clear_forgets_everything() {
    let mut m = IdMap::new();
    m.assign_sorted(&[5, 6, 7]).unwrap();
    m.clear();
    assert!(m.is_empty());
    assert_eq!(m.peek_next_slot(), 0);
    assert_eq!(m.lookup_slot(5), None);
    assert_eq!(m.lookup_node(0), None);
}

#[test]
fn assign_sorted_ranks_the_ids() {
    let mut m = IdMap::new();
    let slots = m.assign_sorted(&[30, 10, 40, 20]).unwrap();
    assert_eq!(slots, vec![2, 0, 3, 1]);
    assert_eq!(m.len(), 4);
    assert_eq!(m.peek_next_slot(), 4);
    assert_eq!(m.lookup_node(0), Some(10));
    assert_eq!(m.lookup_node(1), Some(20));
    assert_eq!(m.lookup_node(2), Some(30));
    assert_eq!(m.lookup_node(3), Some(40));
    assert_eq!(m.lookup_slot(40), Some(3));
}

#[test]
fn assign_sorted_of_sorted_input_is_identity() {
    let mut m = IdMap::new();
    let slots = m.assign_sorted(&[1, 2, 3]).unwrap();
    assert_eq!(slots, vec![0, 1, 2]);
}

#[test]
fn assign_sorted_of_nothing_gives_nothing() {
    let mut m = IdMap::new();
    let slots = m.assign_sorted(&[]).unwrap();
    assert!(slots.is_empty());
    assert!(m.is_empty());
    assert_eq!(m.peek_next_slot(), 0);
}

#[test]
fn assign_sorted_replaces_what_was_there() {
    let mut m = IdMap::new();
    m.assign_sorted(&[100, 200, 300]).unwrap();
    let slots = m.assign_sorted(&[9, 8]).unwrap();
    assert_eq!(slots, vec![1, 0]);
    assert_eq!(m.len(), 2);
    assert_eq!(m.lookup_slot(100), None);
    assert_eq!(m.lookup_node(2), None);
    assert_eq!(m.peek_next_slot(), 2);
}

#[test]
fn assign_sorted_accepts_the_largest_id_that_fits() {
    let mut m = IdMap::new();
    let slots = m.assign_sorted(&[u32::MAX as u64, 0]).unwrap();
    assert_eq!(slots, vec![1, 0]);
}

#[test]
fn assign_sorted_reports_the_least_repeated_id() {
    let mut m = IdMap::new();
    m.assign_sorted(&[1, 2]).unwrap();
    let r = m.assign_sorted(&[7, 3, 7, 3, 5]);
    assert!(matches!(r, Err(VectorIndexError::DuplicateNodeId { node_id: 3 })));
    // nothing was changed
    assert_eq!(m.len(), 2);
    assert_eq!(m.lookup_slot(1), Some(0));
    assert_eq!(m.lookup_slot(2), Some(1));
    assert_eq!(m.peek_next_slot(), 2);
}

#[test]
fn assign_sorted_reports_the_least_id_that_overflows() {
    let mut m = IdMap::new();
    let r = m.assign_sorted(&[(1u64 << 40), 5, (1u64 << 32), 6]);
    assert!(matches!(
        r,
        Err(VectorIndexError::VertexIdOverflow { vertex_id }) if vertex_id == (1u64 << 32)
    ));
    assert!(m.is_empty());
}

#[test]
fn assign_sorted_reports_a_repeated_id_before_an_overflow() {
    let mut m = IdMap::new();
    let r = m.assign_sorted(&[(1u64 << 32), 4, 4]);
    assert!(matches!(r, Err(VectorIndexError::DuplicateNodeId { node_id: 4 })));
}

#[test]
fn assign_sorted_reports_overflow_for_a_repeated_id_that_does_not_fit() {
    let mut m = IdMap::new();
    let r = m.assign_sorted(&[(1u64 << 32), (1u64 << 32)]);
    assert!(matches!(
        r,
        Err(VectorIndexError::VertexIdOverflow { vertex_id }) if vertex_id == (1u64 << 32)
    ));
}
