//! Tests of the history store: version chains, content reconstruction,
//! branch heads, branching and merges.

use onyx::errors::OnyxError;
use onyx::history::HistoryStore;
use onyx::model::{Diff, VersionEntry};

#[test]
fn test_in_memory_record_and_retrieve_version() {
    let mut store = HistoryStore::new();
    let entity_id: u128 = 100;

    let v1 = VersionEntry::initial(entity_id, String::from("fn hello() {}"));
    let v1_id = store.record_version(v1).unwrap();

    let retrieved = store.get_version(v1_id).unwrap();
    assert_eq!(retrieved.entity_id, entity_id);
    assert!(retrieved.diff.is_initial());
}

#[test]
fn test_in_memory_reconstruct_content() {
    let mut store = HistoryStore::new();
    let entity_id: u128 = 100;

    let v1 = VersionEntry::initial(entity_id, String::from("fn hello() {}"));
    let v1_id = store.record_version(v1).unwrap();

    let content = store.get_content_at_version(entity_id, v1_id).unwrap();
    assert_eq!(content, "fn hello() {}");
}

#[test]
fn test_in_memory_version_chain() {
    let mut store = HistoryStore::new();
    let entity_id: u128 = 100;

    let v1 = VersionEntry::initial(entity_id, String::from("fn hello() {}"));
    let v1_id = store.record_version(v1).unwrap();

    let v2 = VersionEntry::content_change(
        entity_id,
        v1_id,
        String::from("fn hello() { println(); }"),
        1,
        1,
    );
    store.record_version(v2).unwrap();

    let versions = store.list_versions(entity_id);
    assert_eq!(versions.len(), 2);
}

#[test]
fn test_in_memory_branching() {
    let mut store = HistoryStore::new();
    let entity_id: u128 = 100;

    let v1 = VersionEntry::initial(entity_id, String::from("initial"));
    let v1_id = store.record_version(v1).unwrap();

    store.create_branch("feature", v1_id).unwrap();

    let branch = store.get_branch("feature").unwrap();
    assert_eq!(branch.name, "feature");
    assert_eq!(branch.base, v1_id);
    assert!(store.get_branch("elsewhere").is_none());

    assert!(store.create_branch("feature", v1_id).is_err());
}

#[test]
fn test_in_memory_get_head() {
    let mut store = HistoryStore::new();
    let entity_id: u128 = 100;

    let v1 = VersionEntry::initial(entity_id, String::from("initial"));
    let v1_id = store.record_version(v1).unwrap();

    let head = store.get_head(entity_id, "main");
    assert_eq!(head, Some(v1_id));
}

#[test]
fn test_version_reconstruction_scenario() {
    // Record an initial version then a post-image change; reconstruction
    // returns each version's text.
    let mut store = HistoryStore::new();
    let entity: u128 = 7;

    let mut v1 = VersionEntry::initial(entity, String::from("a"));
    v1.timestamp = 10;
    let v1_id = store.record_version(v1).unwrap();

    let mut v2 = VersionEntry::content_change(entity, v1_id, String::from("b"), 1, 1);
    v2.timestamp = 20;
    let v2_id = store.record_version(v2).unwrap();

    assert_eq!(store.get_content_at_version(entity, v2_id).unwrap(), "b");
    assert_eq!(store.get_content_at_version(entity, v1_id).unwrap(), "a");
}

#[test]
fn test_round_trip_over_longer_chain() {
    let mut store = HistoryStore::new();
    let entity: u128 = 7;
    let v1 = store
        .record_version(VersionEntry::initial(entity, String::from("one")))
        .unwrap();
    let v2 = store
        .record_version(VersionEntry::content_change(entity, v1, String::from("two"), 1, 1))
        .unwrap();
    let v3 = store
        .record_version(VersionEntry::content_change(entity, v2, String::from("three"), 1, 1))
        .unwrap();
    assert_eq!(store.get_content_at_version(entity, v3).unwrap(), "three");
}

#[test]
fn test_content_lookup_checks_entity() {
    let mut store = HistoryStore::new();
    let v1 = store
        .record_version(VersionEntry::initial(1, String::from("a")))
        .unwrap();
    assert!(matches!(
        store.get_content_at_version(2, v1),
        Err(OnyxError::Internal(_))
    ));
    assert!(matches!(
        store.get_content_at_version(1, 99),
        Err(OnyxError::VersionNotFound(99))
    ));
}

#[test]
fn test_parent_must_exist() {
    let mut store = HistoryStore::new();
    let entity: u128 = 9;
    let orphan = VersionEntry::content_change(entity, 41, String::from("x"), 1, 0);
    assert!(matches!(
        store.record_version(orphan),
        Err(OnyxError::VersionNotFound(41))
    ));
}

#[test]
fn test_parent_entity_must_match() {
    let mut store = HistoryStore::new();
    let v1 = store
        .record_version(VersionEntry::initial(1, String::from("a")))
        .unwrap();
    let crossed = VersionEntry::content_change(2, v1, String::from("b"), 1, 1);
    assert!(store.record_version(crossed).is_err());
}

#[test]
fn test_head_follows_latest_timestamp() {
    let mut store = HistoryStore::new();
    let entity: u128 = 5;
    let mut v1 = VersionEntry::initial(entity, String::from("a"));
    v1.timestamp = 100;
    let v1_id = store.record_version(v1).unwrap();

    // An earlier-stamped version does not steal the head.
    let mut v2 = VersionEntry::content_change(entity, v1_id, String::from("b"), 1, 1);
    v2.timestamp = 50;
    store.record_version(v2).unwrap();
    assert_eq!(store.get_head(entity, "main"), Some(v1_id));

    // A later-stamped one does.
    let mut v3 = VersionEntry::content_change(entity, v1_id, String::from("c"), 1, 1);
    v3.timestamp = 150;
    let v3_id = store.record_version(v3).unwrap();
    assert_eq!(store.get_head(entity, "main"), Some(v3_id));
}

#[test]
fn test_list_versions_ordered_by_timestamp() {
    let mut store = HistoryStore::new();
    let entity: u128 = 5;
    let mut v1 = VersionEntry::initial(entity, String::from("a"));
    v1.timestamp = 300;
    let v1_id = store.record_version(v1).unwrap();
    let mut v2 = VersionEntry::content_change(entity, v1_id, String::from("b"), 1, 1);
    v2.timestamp = 100;
    store.record_version(v2).unwrap();
    let mut v3 = VersionEntry::content_change(entity, v1_id, String::from("c"), 1, 1);
    v3.timestamp = 200;
    store.record_version(v3).unwrap();

    let versions = store.list_versions(entity);
    assert_eq!(versions.len(), 3);
    assert!(versions[0].timestamp <= versions[1].timestamp);
    assert!(versions[1].timestamp <= versions[2].timestamp);

    let ranged = store.list_versions_in_range(entity, 100, 200);
    assert_eq!(ranged.len(), 2);
}

#[test]
fn test_content_at_timestamp() {
    let mut store = HistoryStore::new();
    let entity: u128 = 5;
    let mut v1 = VersionEntry::initial(entity, String::from("a"));
    v1.timestamp = 100;
    let v1_id = store.record_version(v1).unwrap();
    let mut v2 = VersionEntry::content_change(entity, v1_id, String::from("b"), 1, 1);
    v2.timestamp = 200;
    store.record_version(v2).unwrap();

    assert_eq!(store.get_content_at_timestamp(entity, 150).unwrap(), "a");
    assert_eq!(store.get_content_at_timestamp(entity, 250).unwrap(), "b");
    assert!(store.get_content_at_timestamp(entity, 50).is_err());
    assert!(matches!(
        store.get_content_at_timestamp(999, 50),
        Err(OnyxError::NodeNotFound(999))
    ));
}

#[test]
fn test_merge_branch() {
    let mut store = HistoryStore::new();
    let entity: u128 = 5;
    let base = store
        .record_version(VersionEntry::initial(entity, String::from("base")))
        .unwrap();
    store.create_branch("feature", base).unwrap();
    store.create_branch("mainline", base).unwrap();

    let merge_id = store.merge_branch("feature", "mainline").unwrap();

    let feature = store.get_branch("feature").unwrap();
    assert_eq!(feature.merged_into.as_deref(), Some("mainline"));
    let mainline = store.get_branch("mainline").unwrap();
    assert_eq!(mainline.head, merge_id);

    let merge = store.get_version(merge_id).unwrap();
    assert_eq!(merge.parent_version, Some(base));
    assert_eq!(merge.entity_id, entity);
    assert_eq!(merge.branch, "mainline");
    assert!(matches!(merge.diff, Diff::Initial { .. }));
}

#[test]
fn test_merge_missing_branch() {
    let mut store = HistoryStore::new();
    let base = store
        .record_version(VersionEntry::initial(1, String::from("base")))
        .unwrap();
    store.create_branch("only", base).unwrap();
    assert!(matches!(
        store.merge_branch("ghostly", "only"),
        Err(OnyxError::BranchNotFound(_))
    ));
    assert!(matches!(
        store.merge_branch("only", "ghostly"),
        Err(OnyxError::BranchNotFound(_))
    ));
}

#[test]
fn test_create_branch_requires_base() {
    let mut store = HistoryStore::new();
    assert!(matches!(
        store.create_branch("early", 3),
        Err(OnyxError::VersionNotFound(3))
    ));
}

#[test]
fn test_composite_diff_reconstruction() {
    let mut store = HistoryStore::new();
    let entity: u128 = 8;
    let v1 = store
        .record_version(VersionEntry::initial(entity, String::from("start")))
        .unwrap();
    let mut v2 = VersionEntry::content_change(entity, v1, String::from("unused"), 0, 0);
    v2.diff = Diff::Composite(vec![
        Diff::ContentChanged { patch: String::from("mid"), additions: 1, deletions: 1 },
        Diff::MetadataChanged { changed_fields: vec![] },
        Diff::ContentChanged { patch: String::from("end"), additions: 1, deletions: 1 },
    ]);
    let v2_id = store.record_version(v2).unwrap();
    assert_eq!(store.get_content_at_version(entity, v2_id).unwrap(), "end");
}

#[test]
fn test_lines_changed() {
    let d1 = Diff::Initial { content: String::from("a\nb\nc") };
    assert_eq!(d1.lines_changed(), 3);
    let d2 = Diff::ContentChanged { patch: String::from("x"), additions: 4, deletions: 2 };
    assert_eq!(d2.lines_changed(), 6);
    let d3 = Diff::Composite(vec![d1, d2]);
    assert_eq!(d3.lines_changed(), 9);
    let d4 = Diff::Initial { content: String::from("a\nb\n") };
    assert_eq!(d4.lines_changed(), 2);
    let d5 = Diff::Initial { content: String::from("") };
    assert_eq!(d5.lines_changed(), 0);
}
