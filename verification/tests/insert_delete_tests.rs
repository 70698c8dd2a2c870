use diskann::ANNError;
use vector_index::adapter::InMemDiskANNAdapter;
use vector_index::error::VectorIndexError;

fn built(ids: &[u64]) -> InMemDiskANNAdapter {
    let mut adapter = InMemDiskANNAdapter::new(128);
    adapter.build(ids, |_| Ok(1)).unwrap();
    adapter
}

#[test]
fn insert_gives_the_next_slots_in_order() {
    let mut adapter = built(&[10, 20]);
    let mut called = false;
    let r = adapter.insert(&[7, 5, 30], || {
        called = true;
        Ok(())
    });
    assert!(r.is_ok());
    assert!(called);
    assert_eq!(adapter.size(), 5);
    assert_eq!(adapter.next_vector_id(), 5);
    assert_eq!(adapter.node_to_vector_id(7), Some(2));
    assert_eq!(adapter.node_to_vector_id(5), Some(3));
    assert_eq!(adapter.node_to_vector_id(30), Some(4));
    assert_eq!(adapter.node_to_vector_id(10), Some(0));
    assert_eq!(adapter.node_to_vector_id(20), Some(1));
}

#[test]
fn can_insert_says_when_the_slots_run_out() {
    let adapter = built(&[10, 20]);
    assert!(adapter.can_insert(0));
    assert!(adapter.can_insert(5));
    assert!(adapter.can_insert(u32::MAX as usize - 2));
    assert!(!adapter.can_insert(u32::MAX as usize - 1));
    assert!(!adapter.can_insert(usize::MAX));
}

#[test]
fn insert_of_nothing_does_nothing() {
    let mut unbuilt = InMemDiskANNAdapter::new(128);
    let r = unbuilt.insert(&[], || -> Result<(), ANNError> { panic!("inner index touched") });
    assert!(r.is_ok());
    let mut adapter = built(&[1]);
    let r = adapter.insert(&[], || -> Result<(), ANNError> { panic!("inner index touched") });
    assert!(r.is_ok());
    assert_eq!(adapter.size(), 1);
    assert_eq!(adapter.next_vector_id(), 1);
}

#[test]
fn insert_needs_a_built_index() {
    let mut adapter = InMemDiskANNAdapter::new(128);
    let r = adapter.insert(&[1], || -> Result<(), ANNError> { panic!("inner index touched") });
    assert!(matches!(r, Err(VectorIndexError::IndexNotBuilt)));
    assert_eq!(adapter.size(), 0);
}

#[test]
fn insert_refuses_an_id_that_overflows() {
    let mut adapter = built(&[1]);
    let r = adapter.insert(&[2, u64::MAX], || -> Result<(), ANNError> {
        panic!("inner index touched")
    });
    assert!(matches!(r, Err(VectorIndexError::VertexIdOverflow { vertex_id: u64::MAX })));
    assert_eq!(adapter.size(), 1);
    assert_eq!(adapter.node_to_vector_id(2), None);
    assert_eq!(adapter.next_vector_id(), 1);
}

#[test]
fn insert_refuses_an_id_that_is_live() {
    let mut adapter = built(&[1, 2, 3]);
    let r = adapter.insert(&[9, 2], || -> Result<(), ANNError> { panic!("inner index touched") });
    assert!(matches!(r, Err(VectorIndexError::DuplicateNodeId { node_id: 2 })));
    assert_eq!(adapter.size(), 3);
    assert_eq!(adapter.node_to_vector_id(9), None);
}

#[test]
fn insert_refuses_an_id_that_stands_twice_in_the_list() {
    let mut adapter = built(&[1]);
    let r = adapter.insert(&[5, 6, 5], || -> Result<(), ANNError> {
        panic!("inner index touched")
    });
    assert!(matches!(r, Err(VectorIndexError::DuplicateNodeId { node_id: 5 })));
    assert_eq!(adapter.size(), 1);
    assert_eq!(adapter.next_vector_id(), 1);
}

#[test]
fn insert_reports_the_first_fault_of_the_list() {
    let mut adapter = built(&[1]);
    // the second id is live, the third overflows: the live one comes first
    let r = adapter.insert(&[4, 1, u64::MAX], || -> Result<(), ANNError> {
        panic!("inner index touched")
    });
    assert!(matches!(r, Err(VectorIndexError::DuplicateNodeId { node_id: 1 })));
    let r = adapter.insert(&[u64::MAX, 1], || -> Result<(), ANNError> {
        panic!("inner index touched")
    });
    assert!(matches!(r, Err(VectorIndexError::VertexIdOverflow { vertex_id: u64::MAX })));
}

#[test]
fn a_failed_inner_insert_is_rolled_back() {
    let mut adapter = built(&[1]);
    let r = adapter.insert(&[2, 3], || Err(ANNError::message("no room")));
    match r {
        Err(VectorIndexError::BuildError(text)) => assert!(text.contains("no room")),
        _ => panic!("wrong result"),
    }
    assert_eq!(adapter.size(), 1);
    assert_eq!(adapter.node_to_vector_id(2), None);
    assert_eq!(adapter.node_to_vector_id(3), None);
    assert_eq!(adapter.node_to_vector_id(1), Some(0));
    assert_eq!(adapter.next_vector_id(), 1);
    // the slots are handed out again
    adapter.insert(&[4], || Ok(())).unwrap();
    assert_eq!(adapter.node_to_vector_id(4), Some(1));
}

#[test]
fn the_halves_of_an_insert_can_be_called_apart() {
    let mut adapter = built(&[1, 2]);
    assert_eq!(adapter.begin_insert(&[]).unwrap(), None);
    let base = adapter.begin_insert(&[8, 9]).unwrap();
    assert_eq!(base, Some(2));
    assert_eq!(adapter.size(), 4);
    assert!(adapter.complete_insert(&[8, 9], 2, Ok(())).is_ok());
    assert_eq!(adapter.size(), 4);
    let base = adapter.begin_insert(&[11]).unwrap();
    assert_eq!(base, Some(4));
    let r = adapter.complete_insert(&[11], 4, Err(ANNError::message("x")));
    assert!(matches!(r, Err(VectorIndexError::BuildError(_))));
    assert_eq!(adapter.size(), 4);
    assert_eq!(adapter.next_vector_id(), 4);
}

#[test]
fn soft_delete_takes_the_ids_out() {
    let mut adapter = built(&[10, 20, 30, 40]);
    let mut handed = Vec::new();
    let r = adapter.soft_delete(&[30, 10], |slots| {
        handed = slots;
        Ok(())
    });
    assert!(r.is_ok());
    assert_eq!(handed, vec![2, 0]);
    assert_eq!(adapter.size(), 2);
    assert_eq!(adapter.mapping_count(), 2);
    assert_eq!(adapter.node_to_vector_id(10), None);
    assert_eq!(adapter.node_to_vector_id(30), None);
    assert_eq!(adapter.node_to_vector_id(20), Some(1));
    assert_eq!(adapter.node_to_vector_id(40), Some(3));
    assert_eq!(adapter.next_vector_id(), 4);
}

#[test]
fn soft_delete_of_nothing_does_nothing() {
    let mut unbuilt = InMemDiskANNAdapter::new(128);
    let r = unbuilt.soft_delete(&[], |_| -> Result<(), ANNError> { panic!("touched") });
    assert!(r.is_ok());
    let mut adapter = built(&[1]);
    let r = adapter.soft_delete(&[], |_| -> Result<(), ANNError> { panic!("touched") });
    assert!(r.is_ok());
    assert_eq!(adapter.size(), 1);
}

#[test]
fn soft_delete_needs_a_built_index() {
    let mut adapter = InMemDiskANNAdapter::new(128);
    let r = adapter.soft_delete(&[1], |_| -> Result<(), ANNError> { panic!("touched") });
    assert!(matches!(r, Err(VectorIndexError::IndexNotBuilt)));
}

#[test]
fn soft_delete_refuses_an_unknown_id_before_any_change() {
    let mut adapter = built(&[1, 2, 3]);
    let r = adapter.soft_delete(&[2, 8, 9], |_| -> Result<(), ANNError> { panic!("touched") });
    assert!(matches!(r, Err(VectorIndexError::NodeIdNotFound { node_id: 8 })));
    assert_eq!(adapter.size(), 3);
    assert_eq!(adapter.node_to_vector_id(2), Some(1));
}

#[test]
fn a_failed_inner_delete_changes_nothing_and_hands_the_error_on() {
    let mut adapter = built(&[1, 2, 3]);
    let r = adapter.soft_delete(&[2], |_| Err(ANNError::message("frozen")));
    match r {
        Err(VectorIndexError::DiskANN(e)) => assert!(e.to_string().contains("frozen")),
        _ => panic!("wrong result"),
    }
    assert_eq!(adapter.size(), 3);
    assert_eq!(adapter.node_to_vector_id(2), Some(1));
}

#[test]
fn soft_delete_of_an_id_given_twice_removes_it_once() {
    let mut adapter = built(&[1, 2, 3]);
    let mut handed = Vec::new();
    let r = adapter.soft_delete(&[2, 2], |slots| {
        handed = slots;
        Ok(())
    });
    assert!(r.is_ok());
    assert_eq!(handed, vec![1, 1]);
    assert_eq!(adapter.size(), 2);
}

#[test]
fn insert_then_delete_restores_the_size() {
    let mut adapter = built(&[1, 2, 3]);
    let before = adapter.size();
    adapter.insert(&[7, 8], || Ok(())).unwrap();
    assert_eq!(adapter.size(), before + 2);
    adapter.soft_delete(&[7, 8], |_| Ok(())).unwrap();
    assert_eq!(adapter.size(), before);
    assert_eq!(adapter.node_to_vector_id(7), None);
    assert_eq!(adapter.node_to_vector_id(1), Some(0));
    // the counter stays where the insert left it
    assert_eq!(adapter.next_vector_id(), 5);
}

#[test]
fn a_deleted_slot_is_not_handed_out_again() {
    let mut adapter = built(&[1, 2, 3]);
    adapter.soft_delete(&[2, 3], |_| Ok(())).unwrap();
    adapter.insert(&[2, 9], || Ok(())).unwrap();
    assert_eq!(adapter.node_to_vector_id(2), Some(3));
    assert_eq!(adapter.node_to_vector_id(9), Some(4));
    assert_eq!(adapter.size(), 3);
}

#[test]
fn deleting_everything_leaves_an_index_that_is_not_built() {
    let mut adapter = built(&[1]);
    adapter.soft_delete(&[1], |_| Ok(())).unwrap();
    assert_eq!(adapter.size(), 0);
    let r = adapter.insert(&[5], || -> Result<(), ANNError> { panic!("touched") });
    assert!(matches!(r, Err(VectorIndexError::IndexNotBuilt)));
}

#[test]
fn the_halves_of_a_soft_delete_can_be_called_apart() {
    let adapter = built(&[5, 6]);
    assert_eq!(adapter.begin_soft_delete(&[]).unwrap(), None);
    assert_eq!(adapter.begin_soft_delete(&[6, 5]).unwrap(), Some(vec![1, 0]));
    let mut adapter = adapter;
    assert!(adapter.complete_soft_delete(&[6], Ok(())).is_ok());
    assert_eq!(adapter.size(), 1);
    let r = adapter.complete_soft_delete(&[5], Err(ANNError::message("y")));
    assert!(matches!(r, Err(VectorIndexError::DiskANN(_))));
    assert_eq!(adapter.size(), 1);
}
