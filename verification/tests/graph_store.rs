//! Tests of the graph store: node and edge lifecycle, adjacency queries,
//! traversal and path finding.

use onyx::graph::GraphStore;
use onyx::errors::OnyxError;
use onyx::model::{CodeEntityKind, Edge, EdgeType, Node, NodeType};

fn make_graph() -> (GraphStore, u128, u128, u128) {
    let mut g = GraphStore::new();

    let func_a = Node::new(
        NodeType::CodeEntity(CodeEntityKind::Function),
        String::from("func_a"),
        String::from("fn func_a() { func_b(); }"),
    );
    let func_b = Node::new(
        NodeType::CodeEntity(CodeEntityKind::Function),
        String::from("func_b"),
        String::from("fn func_b() { func_c(); }"),
    );
    let func_c = Node::new(
        NodeType::CodeEntity(CodeEntityKind::Function),
        String::from("func_c"),
        String::from("fn func_c() {}"),
    );

    let id_a = func_a.id;
    let id_b = func_b.id;
    let id_c = func_c.id;

    g.add_node(func_a).unwrap();
    g.add_node(func_b).unwrap();
    g.add_node(func_c).unwrap();

    g.add_edge(Edge::new(EdgeType::Calls, id_a, id_b)).unwrap();
    g.add_edge(Edge::new(EdgeType::Calls, id_b, id_c)).unwrap();

    (g, id_a, id_b, id_c)
}

#[test]
fn test_add_and_get_node() {
    let (g, id_a, _, _) = make_graph();
    let node = g.get_node(id_a).unwrap();
    assert_eq!(node.name, "func_a");
}

#[test]
fn test_get_neighbors() {
    let (g, id_a, _, _) = make_graph();
    let filter = vec![EdgeType::Calls];
    let neighbors = g.get_neighbors(id_a, Some(&filter));
    assert_eq!(neighbors.len(), 1);
    assert_eq!(neighbors[0].1.name, "func_b");
}

#[test]
fn test_traverse_depth_2() {
    let (g, id_a, _, _) = make_graph();
    let filter = vec![EdgeType::Calls];
    let result = g.traverse(id_a, Some(&filter), 2).unwrap();
    assert_eq!(result.nodes.len(), 3);
    assert_eq!(result.total_visited, 3);
}

#[test]
fn test_traverse_depth_1() {
    let (g, id_a, _, _) = make_graph();
    let filter = vec![EdgeType::Calls];
    let result = g.traverse(id_a, Some(&filter), 1).unwrap();
    assert_eq!(result.nodes.len(), 2);
}

#[test]
fn test_find_paths() {
    let (g, id_a, _, id_c) = make_graph();
    let paths = g.find_paths(id_a, id_c, 3).unwrap();
    assert_eq!(paths.len(), 1);
    assert_eq!(paths[0].len(), 3);
}

#[test]
fn test_get_inbound() {
    let (g, _, _, id_c) = make_graph();
    let filter = vec![EdgeType::Calls];
    let inbound = g.get_inbound(id_c, Some(&filter));
    assert_eq!(inbound.len(), 1);
    assert_eq!(inbound[0].1.name, "func_b");
}

#[test]
fn test_remove_node_cascades() {
    let (mut g, _, id_b, _) = make_graph();
    assert_eq!(g.edge_count(), 2);
    g.remove_node(id_b).unwrap();
    assert_eq!(g.node_count(), 2);
    assert_eq!(g.edge_count(), 0);
}

#[test]
fn test_duplicate_node_error() {
    let mut g = GraphStore::new();
    let node = Node::new(NodeType::Doc, String::from("readme"), String::from("# Hello"));
    let id = node.id;
    g.add_node(node).unwrap();
    let mut dup = Node::new(NodeType::Doc, String::from("readme"), String::from("# Hello"));
    dup.id = id;
    let err = g.add_node(dup);
    assert!(err.is_err());
    assert!(matches!(err, Err(OnyxError::DuplicateNode(d)) if d == id));
    assert_eq!(g.get_node(id).unwrap().name, "readme");
}

#[test]
fn test_edge_endpoint_missing() {
    let mut g = GraphStore::new();
    let u1 = Node::new(NodeType::Doc, String::from("u1"), String::from("one"));
    let id_u1 = u1.id;
    g.add_node(u1).unwrap();
    let absent: u128 = 424242;
    let err = g.add_edge(Edge::new(EdgeType::Calls, id_u1, absent));
    assert!(matches!(err, Err(OnyxError::NodeNotFound(m)) if m == absent));
    assert_eq!(g.edge_count(), 0);
    assert_eq!(g.get_neighbors(id_u1, None).len(), 0);
}

#[test]
fn test_cascading_delete_scenario() {
    let (mut g, id_a, id_b, id_c) = make_graph();
    g.remove_node(id_b).unwrap();
    assert_eq!(g.node_count(), 2);
    assert_eq!(g.edge_count(), 0);
    assert_eq!(g.get_neighbors(id_a, None).len(), 0);
    assert_eq!(g.get_inbound(id_c, None).len(), 0);
}

#[test]
fn test_duplicate_edge_error() {
    let (mut g, id_a, _, id_c) = make_graph();
    let e1 = Edge::new(EdgeType::DependsOn, id_a, id_c);
    let eid = e1.id;
    g.add_edge(e1).unwrap();
    let mut e2 = Edge::new(EdgeType::DependsOn, id_a, id_c);
    e2.id = eid;
    assert!(matches!(g.add_edge(e2), Err(OnyxError::DuplicateEdge(d)) if d == eid));
}

#[test]
fn test_nodes_and_edges_by_type() {
    let (g, _, _, _) = make_graph();
    let fns = g.nodes_by_type(&NodeType::CodeEntity(CodeEntityKind::Function));
    assert_eq!(fns.len(), 3);
    let docs = g.nodes_by_type(&NodeType::Doc);
    assert_eq!(docs.len(), 0);
    let calls = g.edges_by_type(&EdgeType::Calls);
    assert_eq!(calls.len(), 2);
    let imports = g.edges_by_type(&EdgeType::Imports);
    assert_eq!(imports.len(), 0);
}

#[test]
fn test_subgraph_projection() {
    let (g, id_a, _, _) = make_graph();
    let sub = g.subgraph(id_a, 2).unwrap();
    assert_eq!(sub.node_ids.len(), 3);
    assert_eq!(sub.edge_ids.len(), 2);
}

#[test]
fn test_update_node_rewrites() {
    let (mut g, id_a, _, _) = make_graph();
    let mut renamed = Node::new(
        NodeType::CodeEntity(CodeEntityKind::Function),
        String::from("func_a_v2"),
        String::from("fn func_a() {}"),
    );
    renamed.id = id_a;
    g.update_node(renamed).unwrap();
    assert_eq!(g.get_node(id_a).unwrap().name, "func_a_v2");
    assert_eq!(g.node_count(), 3);
}

#[test]
fn test_edge_type_inverse() {
    assert_eq!(EdgeType::Calls.inverse(), Some(EdgeType::Calls));
    assert_eq!(EdgeType::Defines.inverse(), Some(EdgeType::Contains));
    assert_eq!(EdgeType::Contains.inverse(), Some(EdgeType::Defines));
    assert_eq!(EdgeType::VersionedBy.inverse(), None);
}

#[test]
fn test_edges_at_time_window() {
    let mut g = GraphStore::new();
    let a = Node::new(NodeType::Doc, String::from("a"), String::from("a"));
    let b = Node::new(NodeType::Doc, String::from("b"), String::from("b"));
    let (ia, ib) = (a.id, b.id);
    g.add_node(a).unwrap();
    g.add_node(b).unwrap();
    let mut e = Edge::new(EdgeType::Documents, ia, ib);
    e.temporal.since_timestamp = 100;
    e.temporal.until_timestamp = Some(200);
    g.add_edge(e).unwrap();
    assert_eq!(g.edges_at_time(ia, 150).len(), 1);
    assert_eq!(g.edges_at_time(ia, 50).len(), 0);
    assert_eq!(g.edges_at_time(ia, 250).len(), 0);
    assert_eq!(g.edges_at_time(ib, 200).len(), 1);
}

#[test]
fn test_content_hash_comes_from_content() {
    let n1 = Node::new(NodeType::Doc, String::from("a"), String::from("same text"));
    let n2 = Node::new(NodeType::Doc, String::from("b"), String::from("same text"));
    let n3 = Node::new(NodeType::Doc, String::from("c"), String::from("other text"));
    assert_eq!(n1.content_hash.len(), 32);
    assert_eq!(n1.content_hash, n2.content_hash);
    assert_ne!(n1.content_hash, n3.content_hash);
}
