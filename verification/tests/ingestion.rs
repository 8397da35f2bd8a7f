//! Tests of ingestion: function extraction, source parsing, the
//! bag-of-words embedder, and loading units into the stores.

use onyx::ingest::{
    BagOfWordsEmbedder, CodeUnit, extract_fn_name, ingest_code_unit, ingest_codebase,
    parse_rust_source, split_words, trim_ascii,
};
use onyx::model::{CodeEntityKind, Language, Visibility};
use onyx::txn::TransactionManager;

#[test]
fn test_extract_fn_name() {
    assert_eq!(
        extract_fn_name("pub fn hello(x: i32) -> bool {"),
        Some(String::from("hello"))
    );
    assert_eq!(extract_fn_name("fn helper() {"), Some(String::from("helper")));
    assert_eq!(
        extract_fn_name("pub fn generic<T>(v: T) {"),
        Some(String::from("generic"))
    );
}

#[test]
fn test_extract_fn_name_absent() {
    assert_eq!(extract_fn_name("let x = 3;"), None);
    assert_eq!(extract_fn_name("fn "), None);
}

#[test]
fn test_parse_rust_source() {
    let source = "\npub fn calculate_total(items: &[u64]) -> u64 {\n    items.iter().sum()\n}\n\nfn helper() -> bool {\n    true\n}\n";

    let units = parse_rust_source(source, "src/lib.rs");
    assert_eq!(units.len(), 2);
    assert_eq!(units[0].name, "calculate_total");
    assert_eq!(units[1].name, "helper");
    assert_eq!(units[0].visibility, Visibility::Public);
    assert_eq!(units[1].visibility, Visibility::Private);
}

#[test]
fn test_trim_and_words() {
    assert_eq!(trim_ascii("  hello \t"), "hello");
    assert_eq!(trim_ascii("   "), "");
    let words = split_words("fn main() { let x_1 = 2; }");
    assert_eq!(words, vec!["fn", "main", "let", "x_1", "2"]);
}

fn sample_unit() -> CodeUnit {
    CodeUnit {
        name: String::from("calculate_total"),
        content: String::from("pub fn calculate_total(items: &[u64]) -> u64 { items.iter().sum() }"),
        kind: CodeEntityKind::Function,
        language: Language::Rust,
        file_path: String::from("src/billing.rs"),
        line_range: Some((1, 3)),
        signature: Some(String::from("pub fn calculate_total(items: &[u64]) -> u64")),
        visibility: Visibility::Public,
        module_segments: vec![String::from("billing")],
        commit_id: Some(String::from("abc123")),
        branch: Some(String::from("main")),
    }
}

#[test]
fn test_ingest_code_unit() {
    let docs = vec![String::from("fn pub struct use mod crate")];
    let embedder = BagOfWordsEmbedder::from_corpus(&docs, 20);
    let mut stores = TransactionManager::new();

    let unit = sample_unit();
    let result = ingest_code_unit(&mut stores, &unit, &embedder).unwrap();
    assert!(result.version_id >= 1);

    let node = stores.graph_store.get_node(result.node_id).unwrap();
    assert_eq!(node.name, "calculate_total");

    assert!(stores.vector_store.get(result.node_id).is_some());

    let versions = stores.history_store.list_versions(result.node_id);
    assert_eq!(versions.len(), 1);
}

#[test]
fn test_from_corpus_picks_frequent_words() {
    // "alpha" is the most frequent word, "beta" the second; with room for
    // two, "gamma" is left out and components follow frequency order.
    let docs = vec![
        String::from("alpha beta alpha"),
        String::from("alpha beta gamma"),
    ];
    let embedder = BagOfWordsEmbedder::from_corpus(&docs, 2);
    let alpha = embedder.embed("alpha");
    assert_eq!(alpha.values, vec![1, 0]);
    let beta = embedder.embed("beta");
    assert_eq!(beta.values, vec![0, 1]);
    let gamma = embedder.embed("gamma");
    assert_eq!(gamma.values, vec![0, 0]);
}

#[test]
fn test_ingest_codebase_with_relationships() {
    let docs = vec![String::from(
        "fn pub calculate_total apply_discount items price",
    )];
    let embedder = BagOfWordsEmbedder::from_corpus(&docs, 20);
    let mut stores = TransactionManager::new();

    let units = vec![
        CodeUnit {
            name: String::from("calculate_total"),
            content: String::from("pub fn calculate_total() { apply_discount(); }"),
            kind: CodeEntityKind::Function,
            language: Language::Rust,
            file_path: String::from("src/billing.rs"),
            line_range: Some((1, 3)),
            signature: None,
            visibility: Visibility::Public,
            module_segments: vec![String::from("billing")],
            commit_id: None,
            branch: None,
        },
        CodeUnit {
            name: String::from("apply_discount"),
            content: String::from("pub fn apply_discount() { }"),
            kind: CodeEntityKind::Function,
            language: Language::Rust,
            file_path: String::from("src/billing.rs"),
            line_range: Some((5, 7)),
            signature: None,
            visibility: Visibility::Public,
            module_segments: vec![String::from("billing")],
            commit_id: None,
            branch: None,
        },
    ];

    let results = ingest_codebase(&mut stores, &units, &embedder).unwrap();
    assert_eq!(results.len(), 2);
    assert!(stores.graph_store.edge_count() > 0);
}

#[test]
fn test_bag_of_words_embedder() {
    let docs = vec![
        String::from("fn main pub struct"),
        String::from("use crate import mod"),
    ];
    let embedder = BagOfWordsEmbedder::from_corpus(&docs, 10);
    let emb = embedder.embed("fn main hello");
    assert_eq!(emb.values.len(), emb.dimensions);
    assert!(emb.dimensions <= 10);
}

#[test]
fn test_embedder_counts_words() {
    let embedder = BagOfWordsEmbedder::new(vec![String::from("alpha"), String::from("beta")]);
    let emb = embedder.embed("alpha beta alpha gamma");
    assert_eq!(emb.values, vec![2, 1]);
    let empty = embedder.embed("delta");
    assert_eq!(empty.values, vec![0, 0]);
}
