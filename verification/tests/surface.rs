//! Tests of the configuration types, request builders and maintenance
//! types around the engine.

use onyx::client::{BillingPortalRequest, CheckoutSessionRequest, IngestCodeUnitRequest, OnyxClientBuilder};
use onyx::config::{DatabaseConfig, DatabaseEndpoint};
use onyx::errors::OnyxError;
use onyx::maintenance::{BenchmarkConfig, BenchmarkRunner, MigrationConfig, MigrationStats, StorageMigrator};
use onyx::model::{CodeEntityKind, Edge, EdgeType, Language, Node, NodeType, Provenance, Visibility};

#[test]
fn test_client_builder() {
    let b = OnyxClientBuilder::new()
        .base_url(String::from("https://example.test"))
        .api_key(String::from("key"))
        .timeout(2500);
    assert_eq!(b.base_url.as_deref(), Some("https://example.test"));
    assert_eq!(b.api_key.as_deref(), Some("key"));
    assert_eq!(b.timeout_ms, Some(2500));
}

#[test]
fn test_checkout_request_builder() {
    let req = CheckoutSessionRequest::new()
        .customer_email(String::from("dev@example.test"))
        .customer_id(String::from("cust_1"))
        .price_id(String::from("price_1"))
        .success_url(String::from("https://ok.test"))
        .cancel_url(String::from("https://no.test"))
        .reference_id(String::from("ref_1"))
        .metadata(String::from("plan"), String::from("pro"));
    assert_eq!(req.customer_email.as_deref(), Some("dev@example.test"));
    assert_eq!(req.customer_id.as_deref(), Some("cust_1"));
    assert_eq!(req.price_id.as_deref(), Some("price_1"));
    assert_eq!(req.success_url.as_deref(), Some("https://ok.test"));
    assert_eq!(req.cancel_url.as_deref(), Some("https://no.test"));
    assert_eq!(req.reference_id.as_deref(), Some("ref_1"));
    assert_eq!(req.metadata.len(), 1);
}

#[test]
fn test_billing_portal_request() {
    let req = BillingPortalRequest::new(String::from("cust_1")).return_url(String::from("https://back.test"));
    assert_eq!(req.customer_id, "cust_1");
    assert_eq!(req.return_url.as_deref(), Some("https://back.test"));
}

#[test]
fn test_ingest_request_builder() {
    let req = IngestCodeUnitRequest::new(
        String::from("f"),
        String::from("fn f() {}"),
        CodeEntityKind::Function,
        Language::Rust,
        String::from("src/lib.rs"),
    )
    .line_range(1, 2)
    .signature(String::from("fn f()"))
    .visibility(Visibility::Private)
    .commit_id(String::from("abc"))
    .branch(String::from("main"));
    assert_eq!(req.line_range, Some((1, 2)));
    assert_eq!(req.visibility, Some(Visibility::Private));
    assert!(matches!(req.language, Some(Language::Rust)));
    assert_eq!(req.commit_id.as_deref(), Some("abc"));
    assert_eq!(req.branch.as_deref(), Some("main"));
}

#[test]
fn test_database_config() {
    let mem = DatabaseConfig::memory();
    assert!(matches!(mem.endpoint, DatabaseEndpoint::Memory));
    assert_eq!(mem.namespace, "onyx");
    let remote = DatabaseConfig::remote(
        String::from("wss://db.test"),
        String::from("user"),
        String::from("SECRET-REDACTED"),
    );
    assert!(matches!(remote.endpoint, DatabaseEndpoint::Remote { .. }));
}

#[test]
fn test_migration_types() {
    let config = MigrationConfig::default();
    assert_eq!(config.batch_size, 1000);
    let migrator = StorageMigrator::new(config);
    assert_eq!(migrator.current_stats().errors, 0);
    let stats = MigrationStats {
        nodes_migrated: 2,
        edges_migrated: 3,
        embeddings_migrated: 4,
        versions_migrated: 5,
        errors: 0,
        started_at: 100,
        ended_at: Some(250),
    };
    assert_eq!(stats.total_records(), 14);
    assert_eq!(stats.duration(), Some(150));
}

#[test]
fn test_benchmark_config() {
    let config = BenchmarkConfig::default();
    assert_eq!(config.record_count, 1000);
    let _runner = BenchmarkRunner::new(config);
}

#[test]
fn test_node_builders() {
    let node = Node::new(NodeType::Doc, String::from("guide"), String::from("body"))
        .with_provenance(Provenance::new(String::from("docs/guide.md")).with_lines(1, 9))
        .with_metadata(String::from("lang"), String::from("en"))
        .with_embedding(vec![1, 2]);
    assert_eq!(node.name, "guide");
    assert_eq!(node.provenance.file_path.as_deref(), Some("docs/guide.md"));
    assert_eq!(node.provenance.line_range, Some((1, 9)));
    assert_eq!(node.metadata.len(), 1);
    assert_eq!(node.embedding, Some(vec![1, 2]));
    assert_eq!(node.created_at, node.updated_at);
}

#[test]
fn test_edge_builders() {
    let mut edge = Edge::new(EdgeType::Calls, 1, 2)
        .with_confidence(1500)
        .with_metadata(String::from("via"), String::from("scan"))
        .with_commit(String::from("abc"));
    assert_eq!(edge.confidence, 1000);
    assert!(edge.is_active());
    edge.terminate(4);
    assert!(!edge.is_active());
    assert_eq!(edge.temporal.until, Some(4));
    let weak = Edge::new(EdgeType::Calls, 1, 2).with_confidence(300);
    assert_eq!(weak.confidence, 300);
}

#[test]
fn test_error_labels() {
    assert_eq!(OnyxError::NodeNotFound(1).kind_label(), "node not found");
    assert_eq!(
        OnyxError::DimensionMismatch { expected: 3, got: 2 }.kind_label(),
        "dimension mismatch"
    );
    assert_eq!(OnyxError::TransactionFailed(String::from("x")).kind_label(), "transaction failed");
}
