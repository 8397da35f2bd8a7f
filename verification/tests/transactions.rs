//! Tests of the transaction manager: atomic batches, typed errors, the
//! cross-store cascade, and the integrity scan.

use onyx::errors::OnyxError;
use onyx::model::{CodeEntityKind, Edge, EdgeType, Node, NodeType, VersionEntry};
use onyx::txn::{TransactionManager, TransactionOp};

fn func_node(name: &str) -> Node {
    Node::new(
        NodeType::CodeEntity(CodeEntityKind::Function),
        String::from(name),
        String::from("fn body() {}"),
    )
}

#[test]
fn test_atomic_commit() {
    let _tm = TransactionManager::new();
}

#[test]
fn test_manager_execute_single_op() {
    let mut tm = TransactionManager::new();
    let node_a = func_node("func_a");
    tm.execute(TransactionOp::InsertNode(node_a)).unwrap();
    let stats = tm.stats();
    assert_eq!(stats.node_count, 1);
}

#[test]
fn test_manager_batch_execution() {
    let mut tm = TransactionManager::new();
    let node_a = func_node("func_a");
    let node_b = func_node("func_b");
    let id_a = node_a.id;
    let id_b = node_b.id;
    let edge = Edge::new(EdgeType::Calls, id_a, id_b);

    tm.execute_batch(vec![
        TransactionOp::InsertNode(node_a),
        TransactionOp::InsertNode(node_b),
        TransactionOp::InsertEdge(edge),
    ])
    .unwrap();

    let stats = tm.stats();
    assert_eq!(stats.node_count, 2);
    assert_eq!(stats.edge_count, 1);
}

#[test]
fn test_transactional_atomicity_scenario() {
    // A batch whose last operation names a missing endpoint fails as a
    // whole: neither node survives.
    let mut tm = TransactionManager::new();
    let node_a = func_node("a");
    let node_b = func_node("b");
    let id_a = node_a.id;
    let absent: u128 = 99999;
    let edge = Edge::new(EdgeType::Calls, id_a, absent);

    let result = tm.execute_batch(vec![
        TransactionOp::InsertNode(node_a),
        TransactionOp::InsertNode(node_b),
        TransactionOp::InsertEdge(edge),
    ]);
    assert!(matches!(result, Err(OnyxError::TransactionFailed(_))));

    let stats = tm.stats();
    assert_eq!(stats.node_count, 0);
    assert_eq!(stats.edge_count, 0);
    assert!(tm.graph_store.get_node(id_a).is_none());
}

#[test]
fn test_begin_commit_rollback_protocol() {
    let mut tm = TransactionManager::new();
    tm.begin().unwrap();
    assert!(matches!(tm.begin(), Err(OnyxError::TransactionFailed(_))));
    let node = func_node("x");
    let id = node.id;
    tm.add_op(TransactionOp::InsertNode(node)).unwrap();
    tm.rollback().unwrap();
    assert_eq!(tm.stats().node_count, 0);
    assert!(matches!(tm.rollback(), Err(OnyxError::TransactionFailed(_))));
    assert!(matches!(tm.commit(), Err(OnyxError::TransactionFailed(_))));

    tm.begin().unwrap();
    let node2 = func_node("y");
    let id2 = node2.id;
    tm.add_op(TransactionOp::InsertNode(node2)).unwrap();
    tm.commit().unwrap();
    assert!(tm.graph_store.get_node(id2).is_some());
    assert!(tm.graph_store.get_node(id).is_none());
}

#[test]
fn test_remove_node_cascades_embedding() {
    let mut tm = TransactionManager::new();
    let node = func_node("v");
    let id = node.id;
    tm.execute(TransactionOp::InsertNode(node)).unwrap();
    tm.execute(TransactionOp::InsertEmbedding { id, embedding: vec![1, 2, 3] })
        .unwrap();
    assert_eq!(tm.stats().embedding_count, 1);
    tm.execute(TransactionOp::RemoveNode(id)).unwrap();
    assert_eq!(tm.stats().node_count, 0);
    assert_eq!(tm.stats().embedding_count, 0);
}

#[test]
fn test_embedding_requires_node() {
    let mut tm = TransactionManager::new();
    let absent: u128 = 4242;
    let err = tm.execute(TransactionOp::InsertEmbedding { id: absent, embedding: vec![1] });
    assert!(matches!(err, Err(OnyxError::NodeNotFound(m)) if m == absent));
}

#[test]
fn test_execute_returns_typed_errors() {
    let mut tm = TransactionManager::new();
    let node = func_node("dup");
    let id = node.id;
    tm.execute(TransactionOp::InsertNode(node)).unwrap();

    let mut copy = func_node("dup");
    copy.id = id;
    assert!(matches!(
        tm.execute(TransactionOp::InsertNode(copy)),
        Err(OnyxError::DuplicateNode(d)) if d == id
    ));
    assert!(matches!(
        tm.execute(TransactionOp::RemoveEdge(5)),
        Err(OnyxError::EdgeNotFound(5))
    ));
    assert!(matches!(
        tm.execute(TransactionOp::DeleteEmbedding(id)),
        Err(OnyxError::NodeNotFound(_))
    ));
    let orphan = VersionEntry::content_change(id, 17, String::from("x"), 1, 0);
    assert!(matches!(
        tm.execute(TransactionOp::RecordVersion(orphan)),
        Err(OnyxError::VersionNotFound(17))
    ));
}

#[test]
fn test_batch_with_version_and_embedding() {
    let mut tm = TransactionManager::new();
    let node = func_node("rich");
    let id = node.id;
    let version = VersionEntry::initial(id, String::from("fn body() {}"));
    tm.execute_batch(vec![
        TransactionOp::InsertNode(node),
        TransactionOp::InsertEmbedding { id, embedding: vec![5, 5] },
        TransactionOp::RecordVersion(version),
    ])
    .unwrap();
    let stats = tm.stats();
    assert_eq!(stats.node_count, 1);
    assert_eq!(stats.embedding_count, 1);
    assert_eq!(stats.version_count, 1);
    assert_eq!(tm.history_store.get_head(id, "main"), Some(1));
}

#[test]
fn test_commit_orders_phases() {
    // An edge listed before its endpoint nodes still commits: application
    // is ordered nodes, then embeddings, then edges, then versions.
    let mut tm = TransactionManager::new();
    let node_a = func_node("a");
    let node_b = func_node("b");
    let (ia, ib) = (node_a.id, node_b.id);
    let edge = Edge::new(EdgeType::Calls, ia, ib);
    tm.execute_batch(vec![
        TransactionOp::InsertEdge(edge),
        TransactionOp::InsertEmbedding { id: ia, embedding: vec![1, 2] },
        TransactionOp::InsertNode(node_a),
        TransactionOp::InsertNode(node_b),
    ])
    .unwrap();
    let stats = tm.stats();
    assert_eq!(stats.node_count, 2);
    assert_eq!(stats.edge_count, 1);
    assert_eq!(stats.embedding_count, 1);
}

#[test]
fn test_validate_integrity_reports_zero_orphans() {
    let mut tm = TransactionManager::new();
    let a = func_node("a");
    let b = func_node("b");
    let (ia, ib) = (a.id, b.id);
    tm.execute_batch(vec![
        TransactionOp::InsertNode(a),
        TransactionOp::InsertNode(b),
        TransactionOp::InsertEdge(Edge::new(EdgeType::Calls, ia, ib)),
        TransactionOp::InsertEmbedding { id: ia, embedding: vec![1, 0] },
    ])
    .unwrap();

    let report = tm.validate_integrity().unwrap();
    assert_eq!(report.total_nodes, 2);
    assert_eq!(report.total_edges, 1);
    assert_eq!(report.total_embeddings, 1);
    assert_eq!(report.orphaned_edges, 0);
    assert_eq!(report.orphaned_embeddings, 0);
    assert!(report.is_valid);

    let recovery = tm.recovery_report();
    assert_eq!(recovery.node_count, 2);
    assert!(recovery.recovery_successful);
}

#[test]
fn test_counts_survive_only_committed_batches() {
    // Committed transactions stay; an aborted one leaves no trace.
    let mut tm = TransactionManager::new();
    let a = func_node("a");
    tm.execute_batch(vec![TransactionOp::InsertNode(a)]).unwrap();

    let b = func_node("b");
    let bad_edge = Edge::new(EdgeType::Calls, b.id, 123456789);
    let aborted = tm.execute_batch(vec![
        TransactionOp::InsertNode(b),
        TransactionOp::InsertEdge(bad_edge),
    ]);
    assert!(aborted.is_err());

    let report = tm.validate_integrity().unwrap();
    assert_eq!(report.total_nodes, 1);
    assert!(report.is_valid);
}
