//! Graph-native vector memory engine: a single-node embedded store that
//! combines a typed knowledge graph, a fixed-dimension vector index with
//! top-k similarity search, and a temporal history log of per-entity
//! version chains, all behind one transactional interface.

pub mod external;
pub mod errors;
pub mod model;
pub mod graph;
pub mod vector;
pub mod history;
pub mod txn;
pub mod query;
pub mod ingest;
pub mod client;
pub mod config;
pub mod maintenance;
