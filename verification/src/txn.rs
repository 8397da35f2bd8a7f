//! The transaction manager: atomic multi-store batches.
//!
//! A transaction buffers operations; `commit` validates the whole batch
//! against a lightweight simulation of the stores and applies it only when
//! every operation will succeed.  A batch that fails validation leaves the
//! stores untouched: all-or-nothing is the contract, not an aspiration.
//! Validation checks endpoint existence for edges, dimensionality and node
//! existence for embeddings, and parent existence for versions; applying a
//! validated batch cannot fail.

use vstd::prelude::*;
use vstd::string::StringExecFns;
use crate::errors::{OnyxError, OnyxResult};
use crate::graph::{GraphStore, edge_idx, has_edge, has_node, ids_contain, node_idx};
use crate::history::{HistoryStore, valid_vid, ver};
use crate::model::{Edge, Node, VersionEntry};
use crate::vector::{COORD_BOUND, DIM_LIMIT, VectorStore, coords_bounded, emb_idx, has_emb};

verus! {

/// One operation of a transaction.
#[derive(Debug)]
pub enum TransactionOp {
    InsertNode(Node),
    RemoveNode(u128),
    InsertEdge(Edge),
    RemoveEdge(u128),
    InsertEmbedding { id: u128, embedding: Vec<i64> },
    DeleteEmbedding(u128),
    RecordVersion(VersionEntry),
}

/// The combined state of the three stores, as one mathematical value:
/// nodes, edges, embeddings, the vector dimensionality, and versions.
pub type EngineModel = (Seq<Node>, Seq<Edge>, Seq<(u128, Vec<i64>)>, Option<usize>, Seq<
    VersionEntry,
>);

/// Whether an operation succeeds against a model.
pub open spec fn step_ok(m: EngineModel, op: TransactionOp) -> bool {
    match op {
        TransactionOp::InsertNode(n) => !has_node(m.0, n.id),
        TransactionOp::RemoveNode(id) => has_node(m.0, id),
        TransactionOp::InsertEdge(e) => has_node(m.0, e.source_id) && has_node(m.0, e.target_id)
            && !has_edge(m.1, e.id),
        TransactionOp::RemoveEdge(id) => has_edge(m.1, id),
        TransactionOp::InsertEmbedding { id, embedding } => (m.3 is None || m.3 == Some(
            embedding@.len() as usize,
        )) && embedding@.len() <= DIM_LIMIT && coords_bounded(embedding@) && has_node(m.0, id),
        TransactionOp::DeleteEmbedding(id) => has_emb(m.2, id),
        TransactionOp::RecordVersion(entry) => m.4.len() < u64::MAX && match entry.parent_version {
            None => true,
            Some(p) => valid_vid(m.4, p) && ver(m.4, p).entity_id == entry.entity_id,
        },
    }
}

/// The model after one successful operation.
pub open spec fn step_of(m: EngineModel, op: TransactionOp) -> EngineModel {
    match op {
        TransactionOp::InsertNode(n) => (m.0.push(n), m.1, m.2, m.3, m.4),
        TransactionOp::RemoveNode(id) => (
            m.0.remove(node_idx(m.0, id)),
            m.1.filter(|e: Edge| e.source_id != id && e.target_id != id),
            if has_emb(m.2, id) {
                m.2.remove(emb_idx(m.2, id))
            } else {
                m.2
            },
            m.3,
            m.4,
        ),
        TransactionOp::InsertEdge(e) => (m.0, m.1.push(e), m.2, m.3, m.4),
        TransactionOp::RemoveEdge(id) => (m.0, m.1.remove(edge_idx(m.1, id)), m.2, m.3, m.4),
        TransactionOp::InsertEmbedding { id, embedding } => (
            m.0,
            m.1,
            if has_emb(m.2, id) {
                m.2.update(emb_idx(m.2, id), (id, embedding))
            } else {
                m.2.push((id, embedding))
            },
            Some(embedding@.len() as usize),
            m.4,
        ),
        TransactionOp::DeleteEmbedding(id) => (m.0, m.1, m.2.remove(emb_idx(m.2, id)), m.3, m.4),
        TransactionOp::RecordVersion(entry) => (
            m.0,
            m.1,
            m.2,
            m.3,
            m.4.push(VersionEntry { version_id: (m.4.len() + 1) as u64, ..entry }),
        ),
    }
}

/// The model after the first `n` operations of a batch.
pub open spec fn model_after(m: EngineModel, ops: Seq<TransactionOp>, n: int) -> EngineModel
    decreases n,
{
    if n <= 0 {
        m
    } else {
        step_of(model_after(m, ops, n - 1), ops[n - 1])
    }
}

/// Whether the first `n` operations of a batch all succeed in order.
pub open spec fn batch_ok(m: EngineModel, ops: Seq<TransactionOp>, n: int) -> bool
    decreases n,
{
    n <= 0 || (batch_ok(m, ops, n - 1) && step_ok(model_after(m, ops, n - 1), ops[n - 1]))
}

/// A valid batch is valid at every prefix, and each step succeeds against
/// the model the prefix leaves behind.
pub proof fn lemma_batch_ok_prefix(m: EngineModel, ops: Seq<TransactionOp>, n: int, j: int)
    requires
        batch_ok(m, ops, n),
        0 <= j < n,
    ensures
        step_ok(model_after(m, ops, j), ops[j]),
        batch_ok(m, ops, j),
    decreases n,
{
    if j < n - 1 {
        lemma_batch_ok_prefix(m, ops, n - 1, j);
    }
}

/// The identifier tables of a model carry distinct identifiers.
pub open spec fn model_unique(m: EngineModel) -> bool {
    &&& (forall|i: int, j: int| 0 <= i < j < m.0.len() ==> m.0[i].id != m.0[j].id)
    &&& (forall|i: int, j: int| 0 <= i < j < m.1.len() ==> m.1[i].id != m.1[j].id)
    &&& (forall|i: int, j: int| 0 <= i < j < m.2.len() ==> m.2[i].0 != m.2[j].0)
}

/// A successful step keeps the identifier tables distinct.
pub proof fn lemma_step_unique(m: EngineModel, op: TransactionOp)
    requires
        model_unique(m),
        step_ok(m, op),
    ensures
        model_unique(step_of(m, op)),
{
    match op {
        TransactionOp::RemoveNode(id) => {
            crate::graph::lemma_filter_unique_edges(
                m.1,
                |e: Edge| e.source_id != id && e.target_id != id,
            );
        },
        _ => {},
    }
}

/// Whether an operation belongs to the node phase.
pub open spec fn is_node_op(op: TransactionOp) -> bool {
    op is InsertNode || op is RemoveNode
}

/// Whether an operation belongs to the embedding phase.
pub open spec fn is_embedding_op(op: TransactionOp) -> bool {
    op is InsertEmbedding || op is DeleteEmbedding
}

/// Whether an operation belongs to the edge phase.
pub open spec fn is_edge_op(op: TransactionOp) -> bool {
    op is InsertEdge || op is RemoveEdge
}

/// Whether an operation belongs to the version phase.
pub open spec fn is_version_op(op: TransactionOp) -> bool {
    op is RecordVersion
}

/// A batch reordered into its application phases: node operations first,
/// then embeddings, then edges, then versions, each phase in buffered
/// order.
pub open spec fn phased(ops: Seq<TransactionOp>) -> Seq<TransactionOp> {
    ops.filter(|op: TransactionOp| is_node_op(op)) + ops.filter(
        |op: TransactionOp| is_embedding_op(op),
    ) + ops.filter(|op: TransactionOp| is_edge_op(op)) + ops.filter(
        |op: TransactionOp| is_version_op(op),
    )
}

/// Reorders a batch into its application phases, keeping each phase in
/// buffered order.
#[verifier::loop_isolation(false)]
fn phase_sort(ops: Vec<TransactionOp>) -> (r: Vec<TransactionOp>)
    ensures
        r@ == phased(ops@),
{
    let ghost opsv = ops@;
    let ghost pn = |op: TransactionOp| is_node_op(op);
    let ghost pb = |op: TransactionOp| is_embedding_op(op);
    let ghost pe = |op: TransactionOp| is_edge_op(op);
    let ghost pv = |op: TransactionOp| is_version_op(op);
    let mut nodes_phase: Vec<TransactionOp> = Vec::new();
    let mut embs_phase: Vec<TransactionOp> = Vec::new();
    let mut edges_phase: Vec<TransactionOp> = Vec::new();
    let mut versions_phase: Vec<TransactionOp> = Vec::new();
    let mut rest: Vec<TransactionOp> = ops;
    let ghost total: int = opsv.len() as int;
    let rlen: usize = rest.len();
    proof {
        assert(total == rlen);
        assert(opsv.subrange(0, 0).filter(pn) =~= Seq::<TransactionOp>::empty());
        assert(opsv.subrange(0, 0).filter(pb) =~= Seq::<TransactionOp>::empty());
        assert(opsv.subrange(0, 0).filter(pe) =~= Seq::<TransactionOp>::empty());
        assert(opsv.subrange(0, 0).filter(pv) =~= Seq::<TransactionOp>::empty());
    }
    let mut i: usize = 0;
    while rest.len() > 0
        invariant
            i == total - rest@.len(),
            0 <= i <= total,
            rest@ =~= opsv.subrange(i as int, total),
            nodes_phase@ == opsv.subrange(0, i as int).filter(pn),
            embs_phase@ == opsv.subrange(0, i as int).filter(pb),
            edges_phase@ == opsv.subrange(0, i as int).filter(pe),
            versions_phase@ == opsv.subrange(0, i as int).filter(pv),
        decreases rest@.len(),
    {
        let op: TransactionOp = rest.remove(0);
        proof {
            assert(op == opsv[i as int]);
            assert(opsv.subrange(0, i as int + 1) =~= opsv.subrange(0, i as int).push(op));
            assert(opsv.subrange(0, i as int + 1) == opsv.subrange(0, i as int).push(op));
            crate::graph::lemma_filter_push(opsv.subrange(0, i as int), pn, op);
            crate::graph::lemma_filter_push(opsv.subrange(0, i as int), pb, op);
            crate::graph::lemma_filter_push(opsv.subrange(0, i as int), pe, op);
            crate::graph::lemma_filter_push(opsv.subrange(0, i as int), pv, op);
        }
        match op {
            TransactionOp::InsertNode(..) | TransactionOp::RemoveNode(..) => {
                nodes_phase.push(op);
            },
            TransactionOp::InsertEmbedding { .. } | TransactionOp::DeleteEmbedding(..) => {
                embs_phase.push(op);
            },
            TransactionOp::InsertEdge(..) | TransactionOp::RemoveEdge(..) => {
                edges_phase.push(op);
            },
            TransactionOp::RecordVersion(..) => {
                versions_phase.push(op);
            },
        }
        i = i + 1;
    }
    proof {
        assert(opsv.subrange(0, total) =~= opsv);
        assert(opsv.subrange(0, total) == opsv);
    }
    let mut sorted: Vec<TransactionOp> = nodes_phase;
    sorted.append(&mut embs_phase);
    sorted.append(&mut edges_phase);
    sorted.append(&mut versions_phase);
    proof {
        assert(sorted@ == phased(opsv));
    }
    sorted
}

/// A three-operation batch of one node, one embedding and one version
/// operation is already in phase order: phasing keeps it.
#[verifier::rlimit(50)]
pub proof fn lemma_phased_node_emb_version(ops: Seq<TransactionOp>)
    requires
        ops.len() == 3,
        is_node_op(ops[0]),
        is_embedding_op(ops[1]),
        is_version_op(ops[2]),
    ensures
        phased(ops) == ops,
{
    reveal(Seq::filter);
    let pn = |op: TransactionOp| is_node_op(op);
    let pb = |op: TransactionOp| is_embedding_op(op);
    let pe = |op: TransactionOp| is_edge_op(op);
    let pv = |op: TransactionOp| is_version_op(op);
    let e0 = Seq::<TransactionOp>::empty();
    let s1 = e0.push(ops[0]);
    let s2 = s1.push(ops[1]);
    let s3 = s2.push(ops[2]);
    assert(ops =~= s3);
    assert(ops == s3);
    crate::graph::lemma_filter_push(e0, pn, ops[0]);
    crate::graph::lemma_filter_push(s1, pn, ops[1]);
    crate::graph::lemma_filter_push(s2, pn, ops[2]);
    crate::graph::lemma_filter_push(e0, pb, ops[0]);
    crate::graph::lemma_filter_push(s1, pb, ops[1]);
    crate::graph::lemma_filter_push(s2, pb, ops[2]);
    crate::graph::lemma_filter_push(e0, pe, ops[0]);
    crate::graph::lemma_filter_push(s1, pe, ops[1]);
    crate::graph::lemma_filter_push(s2, pe, ops[2]);
    crate::graph::lemma_filter_push(e0, pv, ops[0]);
    crate::graph::lemma_filter_push(s1, pv, ops[1]);
    crate::graph::lemma_filter_push(s2, pv, ops[2]);
    assert(ops.filter(pn) =~= seq![ops[0]]);
    assert(ops.filter(pb) =~= seq![ops[1]]);
    assert(ops.filter(pe) =~= Seq::<TransactionOp>::empty());
    assert(ops.filter(pv) =~= seq![ops[2]]);
    assert(phased(ops) =~= ops);
}

/// After a successful batch of one node insertion, one embedding operation
/// and one version operation, the node is stored and every previously
/// stored node remains.
#[verifier::rlimit(50)]
pub proof fn lemma_ingest_batch_effect(
    m0: EngineModel,
    ops: Seq<TransactionOp>,
    mfinal: EngineModel,
    node_id: u128,
)
    requires
        ops.len() == 3,
        ops[0] matches TransactionOp::InsertNode(n) && n.id == node_id,
        is_embedding_op(ops[1]),
        is_version_op(ops[2]),
        mfinal == model_after(m0, ops, 3),
    ensures
        has_node(mfinal.0, node_id),
        forall|x: u128| has_node(m0.0, x) ==> has_node(mfinal.0, x),
{
    assert(model_after(m0, ops, 0) == m0);
    let m1 = model_after(m0, ops, 1);
    assert(m1 == step_of(m0, ops[0]));
    let m2 = model_after(m0, ops, 2);
    assert(m2 == step_of(m1, ops[1]));
    let m3 = model_after(m0, ops, 3);
    assert(m3 == step_of(m2, ops[2]));
    assert(has_node(m1.0, node_id)) by {
        assert(m1.0[m1.0.len() - 1].id == node_id);
    }
    assert(m2.0 == m1.0);
    assert(m3.0 == m2.0);
    assert forall|x: u128| has_node(m0.0, x) implies has_node(mfinal.0, x) by {
        let w = choose|w: int| 0 <= w < m0.0.len() && m0.0[w].id == x;
        assert(m1.0[w].id == x);
    }
}

/// The composite fact `ingest` needs: a successful phased batch of one
/// node insertion, one embedding operation and one version operation
/// stores the node and keeps every previously stored one.
#[verifier::rlimit(100)]
#[verifier::spinoff_prover]
pub proof fn lemma_ingest_batch_full(
    m0: EngineModel,
    ops: Seq<TransactionOp>,
    mfinal: EngineModel,
    node_id: u128,
)
    requires
        ops.len() == 3,
        ops[0] matches TransactionOp::InsertNode(n) && n.id == node_id,
        is_embedding_op(ops[1]),
        is_version_op(ops[2]),
        mfinal == model_after(m0, phased(ops), phased(ops).len() as int),
    ensures
        has_node(mfinal.0, node_id),
        forall|x: u128| has_node(m0.0, x) ==> has_node(mfinal.0, x),
{
    lemma_phased_node_emb_version(ops);
    assert(mfinal == model_after(m0, ops, 3));
    lemma_ingest_batch_effect(m0, ops, mfinal, node_id);
}

// ---------------------------------------------------------------------------
// The validation simulation
// ---------------------------------------------------------------------------

/// The skeleton the validator simulates on: node ids, edge triples,
/// embedding ids, the dimensionality, and version entities.
struct SimVecs {
    nodes: Vec<u128>,
    edges: Vec<(u128, u128, u128)>,
    embs: Vec<u128>,
    dims: Option<usize>,
    vents: Vec<u128>,
}

/// The skeleton corresponds to a model, element for element.
pub open spec fn corr(
    ns: Seq<u128>,
    es: Seq<(u128, u128, u128)>,
    bs: Seq<u128>,
    ds: Option<usize>,
    vs: Seq<u128>,
    m: EngineModel,
) -> bool {
    &&& ns.len() == m.0.len() && (forall|i: int| 0 <= i < ns.len() ==> ns[i] == m.0[i].id)
    &&& es.len() == m.1.len() && (forall|i: int|
        0 <= i < es.len() ==> es[i] == (m.1[i].id, m.1[i].source_id, m.1[i].target_id))
    &&& bs.len() == m.2.len() && (forall|i: int| 0 <= i < bs.len() ==> bs[i] == m.2[i].0)
    &&& ds == m.3
    &&& vs.len() == m.4.len() && (forall|i: int| 0 <= i < vs.len() ==> vs[i] == m.4[i].entity_id)
}

impl SimVecs {
    /// The skeleton corresponds to a model.
    spec fn matches(&self, m: EngineModel) -> bool {
        corr(self.nodes@, self.edges@, self.embs@, self.dims, self.vents@, m)
    }
}

/// Whether every component of an embedding is within the fixed-point range.
fn check_coords(v: &Vec<i64>) -> (r: bool)
    ensures
        r == coords_bounded(v@),
{
    let mut i: usize = 0;
    while i < v.len()
        invariant
            0 <= i <= v@.len(),
            forall|j: int| 0 <= j < i ==> -COORD_BOUND <= #[trigger] v@[j] <= COORD_BOUND,
        decreases v@.len() - i,
    {
        if v[i] < -COORD_BOUND || v[i] > COORD_BOUND {
            return false;
        }
        i = i + 1;
    }
    true
}

/// Checks one operation against the simulated skeleton, returning the
/// typed error the operation would fail with.
#[verifier::loop_isolation(false)]
fn check_op(sv: &SimVecs, op: &TransactionOp, Ghost(m): Ghost<EngineModel>) -> (r: OnyxResult<()>)
    requires
        sv.matches(m),
    ensures
        r is Ok <==> step_ok(m, *op),
        r matches Err(e) ==> op_error(m, *op, e),
{
    match op {
        TransactionOp::InsertNode(n) => {
            if ids_contain(&sv.nodes, n.id) {
                proof {
                    let w = choose|w: int| 0 <= w < sv.nodes@.len() && sv.nodes@[w] == n.id;
                    assert(m.0[w].id == n.id);
                }
                Err(OnyxError::DuplicateNode(n.id))
            } else {
                proof {
                    if has_node(m.0, n.id) {
                        let w = choose|w: int| 0 <= w < m.0.len() && m.0[w].id == n.id;
                        assert(sv.nodes@[w] == n.id);
                    }
                }
                Ok(())
            }
        },
        TransactionOp::RemoveNode(id) => {
            if ids_contain(&sv.nodes, *id) {
                proof {
                    let w = choose|w: int| 0 <= w < sv.nodes@.len() && sv.nodes@[w] == id;
                    assert(m.0[w].id == id);
                }
                Ok(())
            } else {
                proof {
                    if has_node(m.0, *id) {
                        let w = choose|w: int| 0 <= w < m.0.len() && m.0[w].id == id;
                        assert(sv.nodes@[w] == id);
                    }
                }
                Err(OnyxError::NodeNotFound(*id))
            }
        },
        TransactionOp::InsertEdge(e) => {
            if !ids_contain(&sv.nodes, e.source_id) {
                proof {
                    if has_node(m.0, e.source_id) {
                        let w = choose|w: int| 0 <= w < m.0.len() && m.0[w].id == e.source_id;
                        assert(sv.nodes@[w] == e.source_id);
                    }
                }
                return Err(OnyxError::NodeNotFound(e.source_id));
            }
            if !ids_contain(&sv.nodes, e.target_id) {
                proof {
                    if has_node(m.0, e.target_id) {
                        let w = choose|w: int| 0 <= w < m.0.len() && m.0[w].id == e.target_id;
                        assert(sv.nodes@[w] == e.target_id);
                    }
                }
                return Err(OnyxError::NodeNotFound(e.target_id));
            }
            let mut i: usize = 0;
            while i < sv.edges.len()
                invariant
                    0 <= i <= sv.edges@.len(),
                    forall|j: int| 0 <= j < i ==> (#[trigger] sv.edges@[j]).0 != e.id,
                decreases sv.edges@.len() - i,
            {
                if sv.edges[i].0 == e.id {
                    proof {
                        assert(m.1[i as int].id == e.id);
                    }
                    return Err(OnyxError::DuplicateEdge(e.id));
                }
                i = i + 1;
            }
            proof {
                if has_edge(m.1, e.id) {
                    let w = choose|w: int| 0 <= w < m.1.len() && m.1[w].id == e.id;
                    assert(sv.edges@[w].0 == e.id);
                }
                let ws = choose|w: int| 0 <= w < sv.nodes@.len() && sv.nodes@[w] == e.source_id;
                assert(m.0[ws].id == e.source_id);
                let wt = choose|w: int| 0 <= w < sv.nodes@.len() && sv.nodes@[w] == e.target_id;
                assert(m.0[wt].id == e.target_id);
            }
            Ok(())
        },
        TransactionOp::RemoveEdge(id) => {
            let mut i: usize = 0;
            while i < sv.edges.len()
                invariant
                    0 <= i <= sv.edges@.len(),
                    forall|j: int| 0 <= j < i ==> (#[trigger] sv.edges@[j]).0 != id,
                decreases sv.edges@.len() - i,
            {
                if sv.edges[i].0 == *id {
                    proof {
                        assert(m.1[i as int].id == id);
                    }
                    return Ok(());
                }
                i = i + 1;
            }
            proof {
                if has_edge(m.1, *id) {
                    let w = choose|w: int| 0 <= w < m.1.len() && m.1[w].id == id;
                    assert(sv.edges@[w].0 == id);
                }
            }
            Err(OnyxError::EdgeNotFound(*id))
        },
        TransactionOp::InsertEmbedding { id, embedding } => {
            match sv.dims {
                Some(d) => {
                    if embedding.len() != d {
                        return Err(
                            OnyxError::DimensionMismatch { expected: d, got: embedding.len() },
                        );
                    }
                },
                None => {},
            }
            if embedding.len() > DIM_LIMIT {
                return Err(
                    OnyxError::DimensionMismatch { expected: DIM_LIMIT, got: embedding.len() },
                );
            }
            if !check_coords(embedding) {
                return Err(OnyxError::Internal(String::from_str(
                    "embedding component out of range",
                )));
            }
            if !ids_contain(&sv.nodes, *id) {
                proof {
                    if has_node(m.0, *id) {
                        let w = choose|w: int| 0 <= w < m.0.len() && m.0[w].id == id;
                        assert(sv.nodes@[w] == id);
                    }
                }
                return Err(OnyxError::NodeNotFound(*id));
            }
            proof {
                let w = choose|w: int| 0 <= w < sv.nodes@.len() && sv.nodes@[w] == id;
                assert(m.0[w].id == id);
            }
            Ok(())
        },
        TransactionOp::DeleteEmbedding(id) => {
            if ids_contain(&sv.embs, *id) {
                proof {
                    let w = choose|w: int| 0 <= w < sv.embs@.len() && sv.embs@[w] == id;
                    assert(m.2[w].0 == id);
                }
                Ok(())
            } else {
                proof {
                    if has_emb(m.2, *id) {
                        let w = choose|w: int| 0 <= w < m.2.len() && m.2[w].0 == id;
                        assert(sv.embs@[w] == id);
                    }
                }
                Err(OnyxError::NodeNotFound(*id))
            }
        },
        TransactionOp::RecordVersion(entry) => {
            if sv.vents.len() as u64 == u64::MAX {
                return Err(OnyxError::Internal(String::from_str("version table full")));
            }
            match &entry.parent_version {
                None => Ok(()),
                Some(p) => {
                    if *p == 0 || *p > sv.vents.len() as u64 {
                        return Err(OnyxError::VersionNotFound(*p));
                    }
                    if sv.vents[(*p - 1) as usize] != entry.entity_id {
                        proof {
                            assert(m.4[*p - 1].entity_id != entry.entity_id);
                        }
                        return Err(OnyxError::VersionNotFound(*p));
                    }
                    proof {
                        assert(m.4[*p - 1].entity_id == entry.entity_id);
                    }
                    Ok(())
                },
            }
        },
    }
}

/// The typed error an operation fails with, for each way it can fail.
pub open spec fn op_error(m: EngineModel, op: TransactionOp, e: OnyxError) -> bool {
    match op {
        TransactionOp::InsertNode(n) => e matches OnyxError::DuplicateNode(d) && d == n.id
            && has_node(m.0, n.id),
        TransactionOp::RemoveNode(id) => e matches OnyxError::NodeNotFound(d) && d == id
            && !has_node(m.0, id),
        TransactionOp::InsertEdge(ed) => match e {
            OnyxError::NodeNotFound(d) => (d == ed.source_id && !has_node(m.0, ed.source_id)) || (
            d == ed.target_id && has_node(m.0, ed.source_id) && !has_node(m.0, ed.target_id)),
            OnyxError::DuplicateEdge(d) => d == ed.id && has_edge(m.1, ed.id),
            _ => false,
        },
        TransactionOp::RemoveEdge(id) => e matches OnyxError::EdgeNotFound(d) && d == id
            && !has_edge(m.1, id),
        TransactionOp::InsertEmbedding { id, embedding } => match e {
            OnyxError::DimensionMismatch { .. } => !(m.3 is None || m.3 == Some(
                embedding@.len() as usize,
            )) || embedding@.len() > DIM_LIMIT,
            OnyxError::Internal(_) => !coords_bounded(embedding@),
            OnyxError::NodeNotFound(d) => d == id && !has_node(m.0, id),
            _ => false,
        },
        TransactionOp::DeleteEmbedding(id) => e matches OnyxError::NodeNotFound(d) && d == id
            && !has_emb(m.2, id),
        TransactionOp::RecordVersion(entry) => match e {
            OnyxError::VersionNotFound(p) => entry.parent_version == Some(p) && !(valid_vid(
                m.4,
                p,
            ) && ver(m.4, p).entity_id == entry.entity_id),
            OnyxError::Internal(_) => m.4.len() >= u64::MAX,
            _ => false,
        },
    }
}


/// Updates the simulated skeleton by one validated operation.
#[verifier::loop_isolation(false)]
fn sim_apply(sv: &mut SimVecs, op: &TransactionOp, Ghost(m): Ghost<EngineModel>)
    requires
        old(sv).matches(m),
        step_ok(m, *op),
        forall|i: int, j: int| 0 <= i < j < m.0.len() ==> m.0[i].id != m.0[j].id,
        forall|i: int, j: int| 0 <= i < j < m.1.len() ==> m.1[i].id != m.1[j].id,
        forall|i: int, j: int| 0 <= i < j < m.2.len() ==> m.2[i].0 != m.2[j].0,
    ensures
        final(sv).matches(step_of(m, *op)),
{
    match op {
        TransactionOp::InsertNode(n) => {
            sv.nodes.push(n.id);
        },
        TransactionOp::RemoveNode(id) => {
            // Remove the node id.
            let mut i: usize = 0;
            let mut found: usize = 0;
            let mut have: bool = false;
            while i < sv.nodes.len()
                invariant
                    0 <= i <= sv.nodes@.len(),
                    !have ==> forall|j: int| 0 <= j < i ==> sv.nodes@[j] != id,
                    have ==> found < i && sv.nodes@[found as int] == id,
                decreases sv.nodes@.len() - i, if have { 0int } else { 1int },
            {
                if !have && sv.nodes[i] == *id {
                    found = i;
                    have = true;
                }
                i = i + 1;
            }
            proof {
                assert(have) by {
                    let w = node_idx(m.0, *id);
                    assert(m.0[w].id == id);
                    assert(sv.nodes@[w] == id);
                    if !have {
                        assert(sv.nodes@[w] != id);
                    }
                }
                let w = node_idx(m.0, *id);
                assert(m.0[w].id == id);
                assert(sv.nodes@[found as int] == id);
                assert(m.0[found as int].id == id);
                assert(w == found);
            }
            sv.nodes.remove(found);

            // Drop the edges touching the node, preserving order.
            let ghost es0 = sv.edges@;
            let ghost me = m.1;
            let ghost keep_e = |e: Edge| e.source_id != *id && e.target_id != *id;
            let mut kept: Vec<(u128, u128, u128)> = Vec::new();
            let mut rest: Vec<(u128, u128, u128)> = Vec::new();
            core::mem::swap(&mut rest, &mut sv.edges);
            proof {
                assert(me.subrange(0, 0).filter(keep_e) =~= Seq::<Edge>::empty());
            }
            let ghost total: int = es0.len() as int;
            let rlen: usize = rest.len();
            proof {
                assert(total == rlen);
            }
            let mut k: usize = 0;
            while rest.len() > 0
                invariant
                    total == es0.len(),
                    total == me.len(),
                    total <= usize::MAX,
                    k == total - rest@.len(),
                    0 <= k <= total,
                    rest@ =~= es0.subrange(k as int, total),
                    forall|j: int| 0 <= j < total ==> es0[j] == (me[j].id, me[j].source_id, me[j].target_id),
                    kept@.len() == me.subrange(0, k as int).filter(keep_e).len(),
                    forall|j: int|
                        0 <= j < kept@.len() ==> #[trigger] kept@[j] == ({
                            let e = me.subrange(0, k as int).filter(keep_e)[j];
                            (e.id, e.source_id, e.target_id)
                        }),
                decreases rest@.len(),
            {
                let t: (u128, u128, u128) = rest.remove(0);
                proof {
                    assert(t == es0[k as int]);
                    assert(me.subrange(0, k as int + 1) =~= me.subrange(0, k as int).push(
                        me[k as int],
                    ));
                    assert(me.subrange(0, k as int + 1) == me.subrange(0, k as int).push(
                        me[k as int],
                    ));
                    crate::graph::lemma_filter_push(me.subrange(0, k as int), keep_e, me[k as int]);
                }
                if !(t.1 == *id || t.2 == *id) {
                    kept.push(t);
                }
                k = k + 1;
            }
            proof {
                assert(me.subrange(0, total) =~= me);
                assert(me.subrange(0, total) == me);
            }
            sv.edges = kept;

            // Drop the embedding keyed by the node, if any.
            let mut i2: usize = 0;
            let mut found2: usize = 0;
            let mut have2: bool = false;
            while i2 < sv.embs.len()
                invariant
                    0 <= i2 <= sv.embs@.len(),
                    !have2 ==> forall|j: int| 0 <= j < i2 ==> sv.embs@[j] != id,
                    have2 ==> found2 < i2 && sv.embs@[found2 as int] == id,
                decreases sv.embs@.len() - i2, if have2 { 0int } else { 1int },
            {
                if !have2 && sv.embs[i2] == *id {
                    found2 = i2;
                    have2 = true;
                }
                i2 = i2 + 1;
            }
            if have2 {
                proof {
                    assert(m.2[found2 as int].0 == id);
                    assert(has_emb(m.2, *id));
                    let w = emb_idx(m.2, *id);
                    assert(m.2[w].0 == id);
                    assert(w == found2);
                }
                sv.embs.remove(found2);
            } else {
                proof {
                    if has_emb(m.2, *id) {
                        let w = emb_idx(m.2, *id);
                        assert(m.2[w].0 == id);
                        assert(sv.embs@[w] == id);
                    }
                }
            }
        },
        TransactionOp::InsertEdge(e) => {
            sv.edges.push((e.id, e.source_id, e.target_id));
        },
        TransactionOp::RemoveEdge(id) => {
            let mut i: usize = 0;
            let mut found: usize = 0;
            let mut have: bool = false;
            while i < sv.edges.len()
                invariant
                    0 <= i <= sv.edges@.len(),
                    !have ==> forall|j: int| 0 <= j < i ==> (#[trigger] sv.edges@[j]).0 != id,
                    have ==> found < i && sv.edges@[found as int].0 == id,
                decreases sv.edges@.len() - i, if have { 0int } else { 1int },
            {
                if !have && sv.edges[i].0 == *id {
                    found = i;
                    have = true;
                }
                i = i + 1;
            }
            proof {
                assert(have) by {
                    let w = edge_idx(m.1, *id);
                    assert(m.1[w].id == id);
                    assert(sv.edges@[w].0 == id);
                    if !have {
                        assert(sv.edges@[w].0 != id);
                    }
                }
                let w = edge_idx(m.1, *id);
                assert(m.1[w].id == id);
                assert(m.1[found as int].id == id);
                assert(w == found);
            }
            sv.edges.remove(found);
        },
        TransactionOp::InsertEmbedding { id, embedding } => {
            let mut i: usize = 0;
            let mut found: usize = 0;
            let mut have: bool = false;
            while i < sv.embs.len()
                invariant
                    0 <= i <= sv.embs@.len(),
                    !have ==> forall|j: int| 0 <= j < i ==> sv.embs@[j] != id,
                    have ==> found < i && sv.embs@[found as int] == id,
                decreases sv.embs@.len() - i, if have { 0int } else { 1int },
            {
                if !have && sv.embs[i] == *id {
                    found = i;
                    have = true;
                }
                i = i + 1;
            }
            if have {
                proof {
                    assert(m.2[found as int].0 == id);
                    assert(has_emb(m.2, *id));
                    let w = emb_idx(m.2, *id);
                    assert(m.2[w].0 == id);
                    assert(w == found);
                }
                sv.embs.set(found, *id);
            } else {
                proof {
                    if has_emb(m.2, *id) {
                        let w = emb_idx(m.2, *id);
                        assert(m.2[w].0 == id);
                        assert(sv.embs@[w] == id);
                    }
                }
                sv.embs.push(*id);
            }
            sv.dims = Some(embedding.len());
        },
        TransactionOp::DeleteEmbedding(id) => {
            let mut i: usize = 0;
            let mut found: usize = 0;
            let mut have: bool = false;
            while i < sv.embs.len()
                invariant
                    0 <= i <= sv.embs@.len(),
                    !have ==> forall|j: int| 0 <= j < i ==> sv.embs@[j] != id,
                    have ==> found < i && sv.embs@[found as int] == id,
                decreases sv.embs@.len() - i, if have { 0int } else { 1int },
            {
                if !have && sv.embs[i] == *id {
                    found = i;
                    have = true;
                }
                i = i + 1;
            }
            proof {
                assert(have) by {
                    let w = emb_idx(m.2, *id);
                    assert(m.2[w].0 == id);
                    assert(sv.embs@[w] == id);
                    if !have {
                        assert(sv.embs@[w] != id);
                    }
                }
                let w = emb_idx(m.2, *id);
                assert(m.2[w].0 == id);
                assert(m.2[found as int].0 == id);
                assert(w == found);
            }
            sv.embs.remove(found);
        },
        TransactionOp::RecordVersion(entry) => {
            sv.vents.push(entry.entity_id);
        },
    }
}


// ---------------------------------------------------------------------------
// The manager
// ---------------------------------------------------------------------------

/// Counts of what the stores hold.
#[derive(Debug, Clone, Copy, PartialEq, Eq, Structural)]
pub struct StoreStats {
    pub node_count: usize,
    pub edge_count: usize,
    pub embedding_count: usize,
    pub version_count: usize,
}

/// The buffered state of an open transaction.
#[derive(Debug)]
pub struct TxnState {
    pending_ops: Vec<TransactionOp>,
    in_transaction: bool,
}

impl TxnState {
    /// The buffered operations.
    pub closed spec fn pending(&self) -> Seq<TransactionOp> {
        self.pending_ops@
    }

    /// Whether a transaction is open.
    pub closed spec fn in_tx(&self) -> bool {
        self.in_transaction
    }
}

/// Manages atomic operations across the vector, graph and history stores.
#[derive(Debug)]
pub struct TransactionManager {
    /// The vector store.
    pub vector_store: VectorStore,
    /// The graph store.
    pub graph_store: GraphStore,
    /// The history store.
    pub history_store: HistoryStore,
    /// The open transaction, if any.
    pub txn: TxnState,
}

impl TransactionManager {
    /// The combined state of the stores as one mathematical value.
    pub open spec fn model(&self) -> EngineModel {
        (
            self.graph_store.nodes_seq(),
            self.graph_store.edges_seq(),
            self.vector_store.entries(),
            self.vector_store.dims(),
            self.history_store.versions_seq(),
        )
    }

    /// The buffered operations of the open transaction.
    pub open spec fn pending(&self) -> Seq<TransactionOp> {
        self.txn.pending()
    }

    /// Whether a transaction is open.
    pub open spec fn in_tx(&self) -> bool {
        self.txn.in_tx()
    }

    /// The manager's invariant: each store is well formed, and every
    /// embedding is keyed by a stored node.
    pub open spec fn wf(&self) -> bool {
        &&& self.graph_store.wf()
        &&& self.vector_store.wf()
        &&& self.history_store.wf()
        &&& (forall|i: int|
            0 <= i < self.vector_store.entries().len() ==> has_node(
                self.graph_store.nodes_seq(),
                (#[trigger] self.vector_store.entries()[i]).0,
            ))
    }

    /// A manager over fresh, empty stores.
    pub fn new() -> (r: Self)
        ensures
            r.wf(),
            !r.in_tx(),
            r.model().0.len() == 0,
            r.model().1.len() == 0,
            r.model().2.len() == 0,
            r.model().4.len() == 0,
    {
        TransactionManager {
            vector_store: VectorStore::new(),
            graph_store: GraphStore::new(),
            history_store: HistoryStore::new(),
            txn: TxnState { pending_ops: Vec::new(), in_transaction: false },
        }
    }

    /// A manager over existing stores.  The stores must agree: every
    /// embedding's node must be present in the graph store.
    pub fn with_stores(
        vector_store: VectorStore,
        graph_store: GraphStore,
        history_store: HistoryStore,
    ) -> (r: Self)
        requires
            vector_store.wf(),
            graph_store.wf(),
            history_store.wf(),
            forall|i: int|
                0 <= i < vector_store.entries().len() ==> has_node(
                    graph_store.nodes_seq(),
                    (#[trigger] vector_store.entries()[i]).0,
                ),
        ensures
            r.wf(),
            !r.in_tx(),
            r.model() == (
                graph_store.nodes_seq(),
                graph_store.edges_seq(),
                vector_store.entries(),
                vector_store.dims(),
                history_store.versions_seq(),
            ),
    {
        TransactionManager {
            vector_store,
            graph_store,
            history_store,
            txn: TxnState { pending_ops: Vec::new(), in_transaction: false },
        }
    }

    /// Opens a transaction.  Fails with `TransactionFailed` exactly when
    /// one is already open; nesting is not supported.
    pub fn begin(&mut self) -> (r: OnyxResult<()>)
        ensures
            final(self).model() == old(self).model(),
            final(self).wf() == old(self).wf(),
            final(self).vector_store == old(self).vector_store,
            final(self).graph_store == old(self).graph_store,
            final(self).history_store == old(self).history_store,
            match r {
                Ok(()) => !old(self).in_tx() && final(self).in_tx() && final(self).pending().len()
                    == 0,
                Err(e) => old(self).in_tx() && *final(self) == *old(self)
                    && e matches OnyxError::TransactionFailed(_),
            },
    {
        if self.txn.in_transaction {
            return Err(OnyxError::TransactionFailed(String::from_str(
                "transaction already in progress",
            )));
        }
        self.txn.pending_ops = Vec::new();
        self.txn.in_transaction = true;
        Ok(())
    }

    /// Buffers an operation in the open transaction.  Fails with
    /// `TransactionFailed` exactly when no transaction is open.
    pub fn add_op(&mut self, op: TransactionOp) -> (r: OnyxResult<()>)
        ensures
            final(self).model() == old(self).model(),
            final(self).wf() == old(self).wf(),
            final(self).in_tx() == old(self).in_tx(),
            final(self).vector_store == old(self).vector_store,
            final(self).graph_store == old(self).graph_store,
            final(self).history_store == old(self).history_store,
            match r {
                Ok(()) => old(self).in_tx() && final(self).pending() == old(self).pending().push(
                    op,
                ),
                Err(e) => !old(self).in_tx() && *final(self) == *old(self)
                    && e matches OnyxError::TransactionFailed(_),
            },
    {
        if !self.txn.in_transaction {
            return Err(OnyxError::TransactionFailed(String::from_str(
                "no transaction in progress",
            )));
        }
        self.txn.pending_ops.push(op);
        Ok(())
    }

    /// Discards the open transaction without touching the stores.  Fails
    /// with `TransactionFailed` exactly when no transaction is open.
    pub fn rollback(&mut self) -> (r: OnyxResult<()>)
        ensures
            final(self).model() == old(self).model(),
            final(self).wf() == old(self).wf(),
            final(self).vector_store == old(self).vector_store,
            final(self).graph_store == old(self).graph_store,
            final(self).history_store == old(self).history_store,
            match r {
                Ok(()) => old(self).in_tx() && !final(self).in_tx()
                    && final(self).pending().len() == 0,
                Err(e) => !old(self).in_tx() && *final(self) == *old(self)
                    && e matches OnyxError::TransactionFailed(_),
            },
    {
        if !self.txn.in_transaction {
            return Err(OnyxError::TransactionFailed(String::from_str(
                "no transaction in progress",
            )));
        }
        self.txn.pending_ops = Vec::new();
        self.txn.in_transaction = false;
        Ok(())
    }

    /// Applies one operation that is known to succeed.
    fn apply_one(&mut self, op: TransactionOp)
        requires
            old(self).wf(),
            step_ok(old(self).model(), op),
        ensures
            final(self).wf(),
            final(self).model() == step_of(old(self).model(), op),
            final(self).history_store.branches_seq() == old(self).history_store.branches_seq(),
            final(self).pending() == old(self).pending(),
            final(self).in_tx() == old(self).in_tx(),
    {
        let ghost m = self.model();
        match op {
            TransactionOp::InsertNode(n) => {
                let ghost nid = n.id;
                match self.graph_store.add_node(n) {
                    Ok(()) => {
                        proof {
                            assert forall|i: int|
                                0 <= i < self.vector_store.entries().len() implies has_node(
                                self.graph_store.nodes_seq(),
                                (#[trigger] self.vector_store.entries()[i]).0,
                            ) by {
                                let id0 = self.vector_store.entries()[i].0;
                                assert(has_node(m.0, id0));
                                let w = choose|w: int| 0 <= w < m.0.len() && m.0[w].id == id0;
                                assert(self.graph_store.nodes_seq()[w].id == id0);
                            }
                        }
                    },
                    Err(_) => {
                        proof {
                            assert(false);
                        }
                    },
                }
            },
            TransactionOp::RemoveNode(id) => {
                match self.graph_store.remove_node(id) {
                    Ok(()) => {},
                    Err(_) => {
                        proof {
                            assert(false);
                        }
                    },
                }
                match self.vector_store.delete(id) {
                    Ok(()) => {
                        proof {
                            assert forall|i: int|
                                0 <= i < self.vector_store.entries().len() implies has_node(
                                self.graph_store.nodes_seq(),
                                (#[trigger] self.vector_store.entries()[i]).0,
                            ) by {
                                let e = self.vector_store.entries()[i];
                                if has_emb(m.2, id) {
                                    let w = emb_idx(m.2, id);
                                    assert(m.2[w].0 == id);
                                    let orig: int = if i < w {
                                        i
                                    } else {
                                        i + 1
                                    };
                                    assert(e == m.2[orig]);
                                    assert(e.0 != id);
                                    assert(has_node(m.0, e.0));
                                } else {
                                    assert(e == m.2[i]);
                                    assert(has_node(m.0, e.0));
                                    assert(e.0 != id) by {
                                        if e.0 == id {
                                            assert(m.2[i].0 == id);
                                        }
                                    }
                                }
                            }
                        }
                    },
                    Err(_) => {
                        proof {
                            assert(false);
                        }
                    },
                }
            },
            TransactionOp::InsertEdge(e) => {
                match self.graph_store.add_edge(e) {
                    Ok(()) => {},
                    Err(_) => {
                        proof {
                            assert(false);
                        }
                    },
                }
            },
            TransactionOp::RemoveEdge(id) => {
                match self.graph_store.remove_edge(id) {
                    Ok(()) => {},
                    Err(_) => {
                        proof {
                            assert(false);
                        }
                    },
                }
            },
            TransactionOp::InsertEmbedding { id, embedding } => {
                match self.vector_store.insert(id, embedding) {
                    Ok(()) => {
                        proof {
                            assert forall|i: int|
                                0 <= i < self.vector_store.entries().len() implies has_node(
                                self.graph_store.nodes_seq(),
                                (#[trigger] self.vector_store.entries()[i]).0,
                            ) by {
                                let e = self.vector_store.entries()[i];
                                if has_emb(m.2, id) {
                                    let w = emb_idx(m.2, id);
                                    if i == w {
                                        assert(e.0 == id);
                                    } else {
                                        assert(e == m.2[i]);
                                    }
                                } else {
                                    if i < m.2.len() {
                                        assert(e == m.2[i]);
                                    } else {
                                        assert(e.0 == id);
                                    }
                                }
                            }
                        }
                    },
                    Err(_) => {
                        proof {
                            assert(false);
                        }
                    },
                }
            },
            TransactionOp::DeleteEmbedding(id) => {
                match self.vector_store.delete(id) {
                    Ok(()) => {
                        proof {
                            let w = emb_idx(m.2, id);
                            assert(m.2[w].0 == id);
                            assert forall|i: int|
                                0 <= i < self.vector_store.entries().len() implies has_node(
                                self.graph_store.nodes_seq(),
                                (#[trigger] self.vector_store.entries()[i]).0,
                            ) by {
                                let orig: int = if i < w {
                                    i
                                } else {
                                    i + 1
                                };
                                assert(self.vector_store.entries()[i] == m.2[orig]);
                            }
                        }
                    },
                    Err(_) => {
                        proof {
                            assert(false);
                        }
                    },
                }
            },
            TransactionOp::RecordVersion(entry) => {
                match self.history_store.record_version(entry) {
                    Ok(_) => {},
                    Err(_) => {
                        proof {
                            assert(false);
                        }
                    },
                }
            },
        }
    }

    /// Commits the open transaction: reorders the buffered operations into
    /// application phases — nodes, then embeddings, then edges, then
    /// versions, each phase in buffered order — validates them all against
    /// a simulation of the stores, then applies them; a batch whose
    /// validation fails changes nothing.  Either way the transaction
    /// closes.  Succeeds exactly when every phased operation succeeds in
    /// order; on success the stores hold the fold of the phased operations
    /// over the prior state.
    #[verifier::loop_isolation(false)]
    pub fn commit(&mut self) -> (r: OnyxResult<()>)
        requires
            old(self).wf(),
        ensures
            final(self).wf(),
            !final(self).in_tx(),
            final(self).history_store.branches_seq() == old(self).history_store.branches_seq(),
            !old(self).in_tx() ==> ((r matches Err(OnyxError::TransactionFailed(_)))
                && final(self).model() == old(self).model()),
            old(self).in_tx() ==> {
                let m0 = old(self).model();
                let ops = phased(old(self).pending());
                &&& (r is Ok <==> batch_ok(m0, ops, ops.len() as int))
                &&& (r is Ok ==> final(self).model() == model_after(m0, ops, ops.len() as int))
                &&& (r is Err ==> final(self).model() == m0 && r matches Err(
                    OnyxError::TransactionFailed(_),
                ))
            },
    {
        if !self.txn.in_transaction {
            return Err(OnyxError::TransactionFailed(String::from_str(
                "no transaction in progress",
            )));
        }
        self.txn.in_transaction = false;
        let mut buffered: Vec<TransactionOp> = Vec::new();
        core::mem::swap(&mut buffered, &mut self.txn.pending_ops);
        let mut ops: Vec<TransactionOp> = phase_sort(buffered);
        let ghost m0 = self.model();
        let ghost opsv = ops@;

        // Validate the whole batch against a simulated skeleton.
        let mut sv = SimVecs {
            nodes: self.graph_store.get_all_node_ids(),
            edges: self.graph_store.edge_triples(),
            embs: self.vector_store.get_all_embedding_ids(),
            dims: self.vector_store.dimensions(),
            vents: self.history_store.entity_ids(),
        };
        let mut i: usize = 0;
        while i < ops.len()
            invariant
                0 <= i <= opsv.len(),
                ops@ == opsv,
                sv.matches(model_after(m0, opsv, i as int)),
                batch_ok(m0, opsv, i as int),
                model_unique(model_after(m0, opsv, i as int)),
                self.wf(),
                self.model() == m0,
            decreases opsv.len() - i,
        {
            let ghost mi = model_after(m0, opsv, i as int);
            match check_op(&sv, &ops[i], Ghost(mi)) {
                Ok(()) => {},
                Err(_) => {
                    proof {
                        if batch_ok(m0, opsv, opsv.len() as int) {
                            lemma_batch_ok_prefix(m0, opsv, opsv.len() as int, i as int);
                        }
                    }
                    return Err(OnyxError::TransactionFailed(String::from_str(
                        "transaction validation failed",
                    )));
                },
            }
            proof {
                lemma_step_unique(mi, opsv[i as int]);
            }
            sim_apply(&mut sv, &ops[i], Ghost(mi));
            i = i + 1;
        }

        // Apply the validated batch; no operation can fail now.
        let ghost total: int = opsv.len() as int;
        let mut j: usize = 0;
        while ops.len() > 0
            invariant
                j == total - ops@.len(),
                0 <= j <= total,
                ops@ =~= opsv.subrange(j as int, total),
                batch_ok(m0, opsv, total),
                self.wf(),
                self.model() == model_after(m0, opsv, j as int),
                self.history_store.branches_seq() == old(self).history_store.branches_seq(),
                self.pending().len() == 0,
                self.in_tx() == false,
            decreases ops@.len(),
        {
            let op: TransactionOp = ops.remove(0);
            proof {
                assert(op == opsv[j as int]);
                lemma_batch_ok_prefix(m0, opsv, total, j as int);
            }
            self.apply_one(op);
            j = j + 1;
        }
        Ok(())
    }

    /// Applies a single operation outside any transaction, returning its
    /// own typed error when it cannot be applied; the stores change exactly
    /// when it succeeds.
    pub fn execute(&mut self, op: TransactionOp) -> (r: OnyxResult<()>)
        requires
            old(self).wf(),
        ensures
            final(self).wf(),
            final(self).in_tx() == old(self).in_tx(),
            final(self).history_store.branches_seq() == old(self).history_store.branches_seq(),
            r is Ok <==> step_ok(old(self).model(), op),
            r is Ok ==> final(self).model() == step_of(old(self).model(), op),
            r matches Err(e) ==> final(self).model() == old(self).model() && op_error(
                old(self).model(),
                op,
                e,
            ),
    {
        let sv = SimVecs {
            nodes: self.graph_store.get_all_node_ids(),
            edges: self.graph_store.edge_triples(),
            embs: self.vector_store.get_all_embedding_ids(),
            dims: self.vector_store.dimensions(),
            vents: self.history_store.entity_ids(),
        };
        match check_op(&sv, &op, Ghost(self.model())) {
            Ok(()) => {
                self.apply_one(op);
                Ok(())
            },
            Err(e) => Err(e),
        }
    }

    /// Opens a transaction, buffers every operation, and commits.
    #[verifier::loop_isolation(false)]
    pub fn execute_batch(&mut self, ops: Vec<TransactionOp>) -> (r: OnyxResult<()>)
        requires
            old(self).wf(),
        ensures
            final(self).wf(),
            final(self).history_store.branches_seq() == old(self).history_store.branches_seq(),
            !old(self).in_tx() ==> !final(self).in_tx(),
            old(self).in_tx() ==> ((r matches Err(OnyxError::TransactionFailed(_)))
                && final(self).model() == old(self).model()),
            !old(self).in_tx() ==> {
                &&& (r is Ok <==> batch_ok(
                    old(self).model(),
                    phased(ops@),
                    phased(ops@).len() as int,
                ))
                &&& (r is Ok ==> final(self).model() == model_after(
                    old(self).model(),
                    phased(ops@),
                    phased(ops@).len() as int,
                ))
                &&& (r is Err ==> final(self).model() == old(self).model() && r matches Err(
                    OnyxError::TransactionFailed(_),
                ))
            },
    {
        match self.begin() {
            Ok(()) => {},
            Err(e) => {
                return Err(e);
            },
        }
        let ghost opsv = ops@;
        let mut rest: Vec<TransactionOp> = ops;
        let ghost total: int = opsv.len() as int;
        let rlen: usize = rest.len();
        proof {
            assert(total == rlen);
        }
        let mut j: usize = 0;
        while rest.len() > 0
            invariant
                j == total - rest@.len(),
                0 <= j <= total,
                total <= usize::MAX,
                rest@ =~= opsv.subrange(j as int, total),
                self.in_tx(),
                self.wf() == old(self).wf(),
                self.wf(),
                self.model() == old(self).model(),
                self.pending() == opsv.subrange(0, j as int),
                self.history_store.branches_seq() == old(self).history_store.branches_seq(),
            decreases rest@.len(),
        {
            let op: TransactionOp = rest.remove(0);
            proof {
                assert(op == opsv[j as int]);
                assert(opsv.subrange(0, j as int + 1) =~= opsv.subrange(0, j as int).push(op));
            }
            match self.add_op(op) {
                Ok(()) => {},
                Err(_) => {
                    proof {
                        assert(false);
                    }
                },
            }
            j = j + 1;
        }
        proof {
            assert(self.pending() =~= opsv);
            assert(self.pending() == opsv);
        }
        self.commit()
    }

    /// Counts of what the stores hold.
    pub fn stats(&self) -> (r: StoreStats)
        ensures
            r.node_count == self.model().0.len(),
            r.edge_count == self.model().1.len(),
            r.embedding_count == self.model().2.len(),
            r.version_count == self.model().4.len(),
    {
        StoreStats {
            node_count: self.graph_store.node_count(),
            edge_count: self.graph_store.edge_count(),
            embedding_count: self.vector_store.len(),
            version_count: self.history_store.version_count(),
        }
    }
}

// ---------------------------------------------------------------------------
// Laws: no orphans after any successful sequence of operations
// ---------------------------------------------------------------------------

/// Every edge's endpoints resolve to stored nodes, in every well-formed
/// manager state.
pub proof fn lemma_no_orphan_edges(m: &TransactionManager)
    requires
        m.wf(),
    ensures
        forall|i: int|
            0 <= i < m.model().1.len() ==> has_node(
                m.model().0,
                (#[trigger] m.model().1[i]).source_id,
            ) && has_node(m.model().0, m.model().1[i].target_id),
{
}

/// Every embedding is keyed by a stored node, in every well-formed manager
/// state.
pub proof fn lemma_no_orphan_embeddings(m: &TransactionManager)
    requires
        m.wf(),
    ensures
        forall|i: int|
            0 <= i < m.model().2.len() ==> has_node(
                m.model().0,
                (#[trigger] m.model().2[i]).0,
            ),
{
}

} // verus!
