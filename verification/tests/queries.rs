//! Tests of the query engine: fused retrieval, impact analysis and test
//! coverage.

use onyx::model::{CodeEntityKind, Edge, EdgeType, Node, NodeType};
use onyx::query::{QueryOptions, execute_query, find_covering_tests, impact_analysis};
use onyx::txn::{TransactionManager, TransactionOp};

struct Fixture {
    tm: TransactionManager,
    id_a: u128,
    id_b: u128,
    id_c: u128,
    id_test: u128,
}

fn build_test_stores() -> Fixture {
    let mut tm = TransactionManager::new();

    let func_a = Node::new(
        NodeType::CodeEntity(CodeEntityKind::Function),
        String::from("func_a"),
        String::from("fn func_a() { func_b(); }"),
    );
    let func_b = Node::new(
        NodeType::CodeEntity(CodeEntityKind::Function),
        String::from("func_b"),
        String::from("fn func_b() { func_c(); }"),
    );
    let func_c = Node::new(
        NodeType::CodeEntity(CodeEntityKind::Function),
        String::from("func_c"),
        String::from("fn func_c() -> i32 { 42 }"),
    );
    let test_b = Node::new(
        NodeType::Test,
        String::from("test_func_b"),
        String::from("fn test_func_b() { check(func_b()); }"),
    );

    let id_a = func_a.id;
    let id_b = func_b.id;
    let id_c = func_c.id;
    let id_test = test_b.id;

    tm.execute_batch(vec![
        TransactionOp::InsertNode(func_a),
        TransactionOp::InsertNode(func_b),
        TransactionOp::InsertNode(func_c),
        TransactionOp::InsertNode(test_b),
    ])
    .unwrap();

    tm.execute(TransactionOp::InsertEdge(Edge::new(EdgeType::Calls, id_a, id_b)))
        .unwrap();
    tm.execute(TransactionOp::InsertEdge(Edge::new(EdgeType::Calls, id_b, id_c)))
        .unwrap();
    tm.execute(TransactionOp::InsertEdge(Edge::new(EdgeType::TestsOf, id_test, id_b)))
        .unwrap();

    tm.execute(TransactionOp::InsertEmbedding { id: id_a, embedding: vec![1000, 0, 0] })
        .unwrap();
    tm.execute(TransactionOp::InsertEmbedding { id: id_b, embedding: vec![800, 200, 0] })
        .unwrap();
    tm.execute(TransactionOp::InsertEmbedding { id: id_c, embedding: vec![0, 0, 1000] })
        .unwrap();

    Fixture { tm, id_a, id_b, id_c, id_test }
}

fn options() -> QueryOptions {
    QueryOptions {
        max_depth: 2,
        top_k: 10,
        edge_types: None,
        time_range: None,
        include_history: false,
        min_confidence: 0,
    }
}

#[test]
fn test_vector_search_query() {
    let f = build_test_stores();
    let mut opts = options();
    opts.top_k = 2;
    opts.max_depth = 0;

    let result = execute_query(&f.tm, Some(&vec![1000, 0, 0]), &opts).unwrap();
    assert!(!result.items.is_empty());
    assert_eq!(result.items[0].name, "func_a");
}

#[test]
fn test_graph_expanded_query() {
    let f = build_test_stores();
    let mut opts = options();
    opts.top_k = 1;
    opts.max_depth = 2;
    opts.edge_types = Some(vec![EdgeType::Calls]);

    let result = execute_query(&f.tm, Some(&vec![1000, 0, 0]), &opts).unwrap();
    assert!(result.items.len() >= 2);
}

#[test]
fn test_query_ranks_by_score() {
    let f = build_test_stores();
    let mut opts = options();
    opts.top_k = 3;
    opts.max_depth = 2;

    let result = execute_query(&f.tm, Some(&vec![1000, 0, 0]), &opts).unwrap();
    for w in result.items.windows(2) {
        assert!(w[0].score >= w[1].score);
    }
}

#[test]
fn test_query_with_history() {
    let mut f = build_test_stores();
    let version = onyx::model::VersionEntry::initial(f.id_a, String::from("fn func_a() {}"));
    f.tm.execute(TransactionOp::RecordVersion(version)).unwrap();

    let mut opts = options();
    opts.top_k = 1;
    opts.max_depth = 0;
    opts.include_history = true;

    let result = execute_query(&f.tm, Some(&vec![1000, 0, 0]), &opts).unwrap();
    assert_eq!(result.items[0].node_id, f.id_a);
    assert_eq!(result.items[0].versions.len(), 1);
}

#[test]
fn test_query_dimension_mismatch() {
    let f = build_test_stores();
    let result = execute_query(&f.tm, Some(&vec![1000, 0]), &options());
    assert!(result.is_err());
}

#[test]
fn test_impact_analysis() {
    let f = build_test_stores();
    let affected = impact_analysis(&f.tm, f.id_c, 3).unwrap();
    assert!(!affected.is_empty());
    let names: Vec<&str> = affected.iter().map(|(_, n, _)| n.as_str()).collect();
    assert!(names.contains(&"func_b"));
}

#[test]
fn test_impact_analysis_scenario() {
    // Changing c impacts b at distance one and a at distance two; the only
    // test covering b is found at depth one.
    let f = build_test_stores();
    let affected = impact_analysis(&f.tm, f.id_c, 3).unwrap();
    let b_entry = affected.iter().find(|(id, _, _)| *id == f.id_b).unwrap();
    assert_eq!(b_entry.2, 1);
    let a_entry = affected.iter().find(|(id, _, _)| *id == f.id_a).unwrap();
    assert_eq!(a_entry.2, 2);

    let tests = find_covering_tests(&f.tm, f.id_b, 1).unwrap();
    assert_eq!(tests.len(), 1);
    assert_eq!(tests[0].node_id, f.id_test);
}

#[test]
fn test_find_covering_tests() {
    let f = build_test_stores();
    let tests = find_covering_tests(&f.tm, f.id_b, 2).unwrap();
    assert_eq!(tests.len(), 1);
    assert_eq!(tests[0].name, "test_func_b");
}

#[test]
fn test_find_covering_tests_transitive() {
    // The test on b also covers c transitively: b calls c, and the bound
    // of two admits tests of direct callers, at a lower score.
    let f = build_test_stores();
    let direct_only = find_covering_tests(&f.tm, f.id_c, 1).unwrap();
    assert_eq!(direct_only.len(), 0);
    let transitive = find_covering_tests(&f.tm, f.id_c, 2).unwrap();
    assert_eq!(transitive.len(), 1);
    assert_eq!(transitive[0].node_id, f.id_test);
    assert_eq!(transitive[0].score, 700);
    assert_eq!(transitive[0].depth, 2);
}
