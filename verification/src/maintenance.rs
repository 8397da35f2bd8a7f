//! Maintenance: integrity scans, recovery reports, store migration and
//! benchmark configuration.

use vstd::prelude::*;
use crate::errors::OnyxResult;
use crate::graph::has_node;
use crate::txn::TransactionManager;

verus! {

/// What a startup integrity scan found: raw counts and orphan counts.
#[derive(Debug, Clone, Copy, PartialEq, Eq, Structural)]
pub struct IntegrityReport {
    pub total_nodes: usize,
    pub total_edges: usize,
    pub total_embeddings: usize,
    pub orphaned_edges: usize,
    pub orphaned_embeddings: usize,
    pub is_valid: bool,
}

/// What a reopen after a crash recovered.
#[derive(Debug, Clone, Copy, PartialEq, Eq, Structural)]
pub struct RecoveryReport {
    pub node_count: usize,
    pub edge_count: usize,
    pub embedding_count: usize,
    pub version_count: usize,
    pub recovery_successful: bool,
}

/// The crash scenarios a durability harness exercises.
#[derive(Debug, Clone, Copy, PartialEq, Eq, Structural)]
pub enum CrashScenario {
    /// A shutdown that flushes everything first.
    GracefulShutdown,
    /// A process kill without flushing.
    UngracefulShutdown,
    /// Power loss in the middle of a write.
    PowerFailureDuringWrite,
    /// A crash in the middle of a batch.
    SystemCrashDuringBatch,
    /// A full disk.
    DiskFull,
}

impl TransactionManager {
    /// Scans the stores for orphans: edges with a missing endpoint and
    /// embeddings keyed by a missing node.  A well-formed manager reports
    /// zero orphans and exact counts: the engine's invariants make the
    /// scan's findings a theorem, not a hope.
    #[verifier::loop_isolation(false)]
    pub fn validate_integrity(&self) -> (r: OnyxResult<IntegrityReport>)
        requires
            self.wf(),
        ensures
            match r {
                Ok(rep) => {
                    &&& rep.total_nodes == self.model().0.len()
                    &&& rep.total_edges == self.model().1.len()
                    &&& rep.total_embeddings == self.model().2.len()
                    &&& rep.orphaned_edges == 0
                    &&& rep.orphaned_embeddings == 0
                    &&& rep.is_valid
                },
                Err(_) => false,
            },
    {
        let ghost ns = self.graph_store.nodes_seq();
        let node_ids: Vec<u128> = self.graph_store.get_all_node_ids();
        let triples: Vec<(u128, u128, u128)> = self.graph_store.edge_triples();
        let emb_ids: Vec<u128> = self.vector_store.get_all_embedding_ids();

        let mut orphaned_edges: usize = 0;
        let mut k: usize = 0;
        while k < triples.len()
            invariant
                0 <= k <= triples@.len(),
                orphaned_edges == 0,
            decreases triples@.len() - k,
        {
            let src_ok: bool = crate::graph::ids_contain(&node_ids, triples[k].1);
            let tgt_ok: bool = crate::graph::ids_contain(&node_ids, triples[k].2);
            if !(src_ok && tgt_ok) {
                proof {
                    let e = self.graph_store.edges_seq()[k as int];
                    assert(has_node(ns, e.source_id));
                    assert(has_node(ns, e.target_id));
                    let ws = choose|w: int| 0 <= w < ns.len() && ns[w].id == e.source_id;
                    assert(node_ids@[ws] == e.source_id);
                    let wt = choose|w: int| 0 <= w < ns.len() && ns[w].id == e.target_id;
                    assert(node_ids@[wt] == e.target_id);
                    assert(false);
                }
                orphaned_edges = orphaned_edges + 1;
            }
            k = k + 1;
        }

        let mut orphaned_embeddings: usize = 0;
        let mut j: usize = 0;
        while j < emb_ids.len()
            invariant
                0 <= j <= emb_ids@.len(),
                orphaned_embeddings == 0,
            decreases emb_ids@.len() - j,
        {
            if !crate::graph::ids_contain(&node_ids, emb_ids[j]) {
                proof {
                    let id = self.vector_store.entries()[j as int].0;
                    assert(has_node(ns, id));
                    let w = choose|w: int| 0 <= w < ns.len() && ns[w].id == id;
                    assert(node_ids@[w] == id);
                    assert(false);
                }
                orphaned_embeddings = orphaned_embeddings + 1;
            }
            j = j + 1;
        }

        Ok(
            IntegrityReport {
                total_nodes: node_ids.len(),
                total_edges: triples.len(),
                total_embeddings: emb_ids.len(),
                orphaned_edges,
                orphaned_embeddings,
                is_valid: orphaned_edges == 0 && orphaned_embeddings == 0,
            },
        )
    }

    /// The counts a reopen finds: with an in-memory engine this is what the
    /// stores hold right now.
    pub fn recovery_report(&self) -> (r: RecoveryReport)
        ensures
            r.node_count == self.model().0.len(),
            r.edge_count == self.model().1.len(),
            r.embedding_count == self.model().2.len(),
            r.version_count == self.model().4.len(),
            r.recovery_successful,
    {
        RecoveryReport {
            node_count: self.graph_store.node_count(),
            edge_count: self.graph_store.edge_count(),
            embedding_count: self.vector_store.len(),
            version_count: self.history_store.version_count(),
            recovery_successful: true,
        }
    }
}

// ---------------------------------------------------------------------------
// Migration
// ---------------------------------------------------------------------------

/// How a migration run is shaped.
#[derive(Debug, Clone, Copy, PartialEq, Eq, Structural)]
pub struct MigrationConfig {
    /// Records per processing batch.
    pub batch_size: usize,
    /// Whether to verify counts after migrating.
    pub verify_after: bool,
    /// Retries for failed records.
    pub max_retries: usize,
    /// Progress reporting interval, in records.
    pub progress_interval: usize,
}

impl Default for MigrationConfig {
    /// Default migration shape: batches of a thousand, verification on.
    fn default() -> (r: Self)
        ensures
            r.batch_size == 1000,
            r.verify_after,
            r.max_retries == 3,
            r.progress_interval == 100,
    {
        MigrationConfig { batch_size: 1000, verify_after: true, max_retries: 3, progress_interval: 100 }
    }
}

/// What a migration run moved.
#[derive(Debug, Clone, Copy, PartialEq, Eq, Structural)]
pub struct MigrationStats {
    pub nodes_migrated: usize,
    pub edges_migrated: usize,
    pub embeddings_migrated: usize,
    pub versions_migrated: usize,
    pub errors: usize,
    /// When the run started, milliseconds since the epoch.
    pub started_at: i64,
    /// When the run ended, if it has.
    pub ended_at: Option<i64>,
}

/// The elapsed time from `s` to `e`, clamped into the representable range.
pub open spec fn elapsed_millis(s: int, e: int) -> int {
    if e < s {
        0
    } else if e - s > i64::MAX {
        i64::MAX as int
    } else {
        e - s
    }
}

impl MigrationStats {
    /// How long the run took, in milliseconds, once it has ended.
    pub fn duration(&self) -> (r: Option<i64>)
        ensures
            r is Some <==> self.ended_at is Some,
            r matches Some(d) ==> self.ended_at matches Some(e) && d == elapsed_millis(
                self.started_at as int,
                e as int,
            ),
    {
        match self.ended_at {
            Some(end) => {
                if end < self.started_at {
                    Some(0)
                } else {
                    let d128: i128 = (end as i128) - (self.started_at as i128);
                    if d128 > i64::MAX as i128 {
                        Some(i64::MAX)
                    } else {
                        Some(d128 as i64)
                    }
                }
            },
            None => None,
        }
    }

    /// The total number of records moved.
    pub fn total_records(&self) -> (r: usize)
        ensures
            r == crate::model::sat_add(
                crate::model::sat_add(
                    crate::model::sat_add(self.nodes_migrated, self.edges_migrated),
                    self.embeddings_migrated,
                ),
                self.versions_migrated,
            ),
    {
        crate::model::saturating_add(
            crate::model::saturating_add(
                crate::model::saturating_add(self.nodes_migrated, self.edges_migrated),
                self.embeddings_migrated,
            ),
            self.versions_migrated,
        )
    }
}

/// Moves every record from a source manager into a target manager.
#[derive(Debug)]
pub struct StorageMigrator {
    config: MigrationConfig,
    stats: MigrationStats,
}

impl StorageMigrator {
    /// A migrator with the given shape and empty statistics.
    pub fn new(config: MigrationConfig) -> (r: Self)
        ensures
            r.config() == config,
            r.stats().nodes_migrated == 0,
            r.stats().edges_migrated == 0,
            r.stats().embeddings_migrated == 0,
            r.stats().versions_migrated == 0,
            r.stats().errors == 0,
    {
        StorageMigrator {
            config,
            stats: MigrationStats {
                nodes_migrated: 0,
                edges_migrated: 0,
                embeddings_migrated: 0,
                versions_migrated: 0,
                errors: 0,
                started_at: 0,
                ended_at: None,
            },
        }
    }

    /// The configured shape.
    pub closed spec fn config(&self) -> MigrationConfig {
        self.config
    }

    /// The statistics so far.
    pub closed spec fn stats(&self) -> MigrationStats {
        self.stats
    }

    /// The statistics so far.
    pub fn current_stats(&self) -> (r: MigrationStats)
        ensures
            r == self.stats(),
    {
        self.stats
    }
}

// ---------------------------------------------------------------------------
// Benchmarks
// ---------------------------------------------------------------------------

/// How a benchmark run is shaped.
#[derive(Debug, Clone, Copy, PartialEq, Eq, Structural)]
pub struct BenchmarkConfig {
    /// Records to insert per benchmark.
    pub record_count: usize,
    /// Searches to run per benchmark.
    pub query_count: usize,
    /// The embedding dimensionality to use.
    pub dimensions: usize,
}

impl Default for BenchmarkConfig {
    /// Default benchmark shape: a thousand records, a hundred queries,
    /// eight dimensions.
    fn default() -> (r: Self)
        ensures
            r.record_count == 1000,
            r.query_count == 100,
            r.dimensions == 8,
    {
        BenchmarkConfig { record_count: 1000, query_count: 100, dimensions: 8 }
    }
}

/// Runs benchmarks against a fresh manager.
#[derive(Debug)]
pub struct BenchmarkRunner {
    config: BenchmarkConfig,
}

impl BenchmarkRunner {
    /// A runner with the given shape.
    pub fn new(config: BenchmarkConfig) -> (r: Self)
        ensures
            r.config() == config,
    {
        BenchmarkRunner { config }
    }

    /// The configured shape.
    pub closed spec fn config(&self) -> BenchmarkConfig {
        self.config
    }
}

} // verus!
