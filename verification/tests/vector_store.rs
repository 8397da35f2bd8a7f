//! Tests of the vector store: insertion, the dimension guard, and exact
//! top-k cosine search in fixed-point thousandths.

use onyx::errors::OnyxError;
use onyx::vector::{VectorStore, cosine_milli};

#[test]
fn test_in_memory_insert_and_search() {
    let mut store = VectorStore::new();
    let id_a: u128 = 1;
    let id_b: u128 = 2;
    let id_c: u128 = 3;

    store.insert(id_a, vec![1000, 0, 0]).unwrap();
    store.insert(id_b, vec![0, 1000, 0]).unwrap();
    store.insert(id_c, vec![900, 100, 0]).unwrap();

    let results = store.search(&vec![1000, 0, 0], 2).unwrap();
    assert_eq!(results.len(), 2);
    assert_eq!(results[0].1, 1000);
}

#[test]
fn test_in_memory_dimension_mismatch() {
    let mut store = VectorStore::new();
    store.insert(7, vec![1, 2]).unwrap();
    let result = store.insert(8, vec![1, 2, 3]);
    assert!(result.is_err());
}

#[test]
fn test_vector_self_similarity_scenario() {
    // Three vectors; the query equals the first.  The best hit is the
    // query itself at the full score, then the near copy, and the
    // orthogonal vector is left out.
    let mut store = VectorStore::new();
    let u1: u128 = 1;
    let u2: u128 = 2;
    let u3: u128 = 3;
    store.insert(u1, vec![1000, 0, 0]).unwrap();
    store.insert(u2, vec![0, 1000, 0]).unwrap();
    store.insert(u3, vec![900, 100, 0]).unwrap();

    let results = store.search(&vec![1000, 0, 0], 2).unwrap();
    assert_eq!(results.len(), 2);
    assert_eq!(results[0].0, u1);
    assert_eq!(results[0].1, 1000);
    assert_eq!(results[1].0, u3);
    assert_eq!(results[1].1, 993);
}

#[test]
fn test_dimension_guard_scenario() {
    // A store opened with three dimensions rejects a two-component vector.
    let mut store = VectorStore::with_dimensions(3);
    let err = store.insert(11, vec![1000, 2000]);
    assert!(matches!(
        err,
        Err(OnyxError::DimensionMismatch { expected: 3, got: 2 })
    ));
}

#[test]
fn test_search_dimension_guard() {
    let mut store = VectorStore::with_dimensions(3);
    store.insert(5, vec![1, 2, 3]).unwrap();
    let err = store.search(&vec![1, 2], 1);
    assert!(matches!(
        err,
        Err(OnyxError::DimensionMismatch { expected: 3, got: 2 })
    ));
}

#[test]
fn test_cosine_similarity_identical() {
    let sim = cosine_milli(&vec![1000, 0, 0], &vec![1000, 0, 0]);
    assert_eq!(sim, 1000);
}

#[test]
fn test_cosine_similarity_orthogonal() {
    let sim = cosine_milli(&vec![1000, 0, 0], &vec![0, 1000, 0]);
    assert_eq!(sim, 0);
}

#[test]
fn test_cosine_opposite_is_negative() {
    let sim = cosine_milli(&vec![1000, 0], &vec![-1000, 0]);
    assert_eq!(sim, -1000);
}

#[test]
fn test_cosine_scale_invariance() {
    // Raw counts and scaled counts rank identically: cosine ignores scale.
    let a = cosine_milli(&vec![3, 4, 0], &vec![1, 0, 0]);
    let b = cosine_milli(&vec![300, 400, 0], &vec![1000, 0, 0]);
    assert_eq!(a, b);
}

#[test]
fn test_update_requires_presence() {
    let mut store = VectorStore::new();
    let err = store.update(9, vec![1, 2, 3]);
    assert!(matches!(err, Err(OnyxError::NodeNotFound(9))));
    store.insert(9, vec![1, 2, 3]).unwrap();
    store.update(9, vec![4, 5, 6]).unwrap();
    assert_eq!(store.get(9).unwrap(), &vec![4, 5, 6]);
}

#[test]
fn test_delete_and_len() {
    let mut store = VectorStore::new();
    store.insert(1, vec![1]).unwrap();
    store.insert(2, vec![2]).unwrap();
    assert_eq!(store.len(), 2);
    store.delete(1).unwrap();
    assert_eq!(store.len(), 1);
    assert!(store.get(1).is_none());
    store.delete(1).unwrap();
    assert_eq!(store.len(), 1);
}

#[test]
fn test_search_returns_all_when_k_exceeds_count() {
    let mut store = VectorStore::new();
    store.insert(1, vec![1, 0]).unwrap();
    store.insert(2, vec![0, 1]).unwrap();
    let results = store.search(&vec![1, 0], 10).unwrap();
    assert_eq!(results.len(), 2);
    // Scores never increase down the ranking.
    assert!(results[0].1 >= results[1].1);
}

#[test]
fn test_zero_norm_scores_zero() {
    let mut store = VectorStore::new();
    store.insert(1, vec![0, 0]).unwrap();
    let results = store.search(&vec![5, 5], 1).unwrap();
    assert_eq!(results.len(), 1);
    assert_eq!(results[0].1, 0);
}
