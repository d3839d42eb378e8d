use ormada::batching::{batch_vec, validate_batch_size, DEFAULT_BATCH_SIZE, MAX_BATCH_SIZE};

#[test]
fn test_validate_batch_size() {
    assert_eq!(validate_batch_size(None), DEFAULT_BATCH_SIZE);
    assert_eq!(validate_batch_size(Some(0)), DEFAULT_BATCH_SIZE);
    assert_eq!(validate_batch_size(Some(500)), 500);
    assert_eq!(validate_batch_size(Some(15000)), MAX_BATCH_SIZE);
}

#[test]
fn test_batch_vec() {
    let items: Vec<i32> = (1..=10).collect();
    let batches = batch_vec(items, 3);

    assert_eq!(batches.len(), 4);
    assert_eq!(batches[0], vec![1, 2, 3]);
    assert_eq!(batches[3], vec![10]);
}

#[test]
fn batching_edge_cases() {
    let empty: Vec<u8> = Vec::new();
    assert!(batch_vec(empty, 3).is_empty());
    let items: Vec<u8> = vec![1, 2, 3, 4];
    assert_eq!(batch_vec(items.clone(), 0), vec![items.clone()]);
    assert_eq!(batch_vec(items, 2), vec![vec![1, 2], vec![3, 4]]);
}
