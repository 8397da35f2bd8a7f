//! The query engine: fused vector-and-graph retrieval, impact analysis and
//! test coverage, over the transaction manager's stores.
//!
//! Scores are fixed-point thousandths.  A vector hit scores its exact
//! cosine similarity; a node discovered by graph expansion at depth `d`
//! scores `1000 / (1 + d)`; a node found both ways gains a bonus of 200,
//! capped at 1000.  Results come ranked by score, descending, with ties in
//! insertion order.

use vstd::prelude::*;
use crate::errors::{OnyxError, OnyxResult};
use crate::external::now_millis;
use crate::graph::{disc_has_within, filter_view, has_node, node_with, passes_filter, reaches};
use crate::vector::{emb_idx, emb_with, has_emb, milli_cos};
use crate::model::EdgeType;
use crate::txn::TransactionManager;
use crate::vector::DIM_LIMIT;
use crate::vector::coords_bounded;

verus! {

/// Options controlling a query.
#[derive(Debug)]
pub struct QueryOptions {
    /// Maximum traversal depth for graph expansion.
    pub max_depth: usize,
    /// Number of vector search results to seed with.
    pub top_k: usize,
    /// Edge types to follow during expansion; `None` follows all.
    pub edge_types: Option<Vec<EdgeType>>,
    /// Inclusive time range for temporal filtering; `None` means all time.
    pub time_range: Option<(i64, i64)>,
    /// Whether to attach version history to results.
    pub include_history: bool,
    /// Minimum edge confidence, in thousandths.
    pub min_confidence: u32,
}

impl Default for QueryOptions {
    /// Default options: depth two, ten seeds, all edge types, all time, no
    /// history, no confidence floor.
    fn default() -> (r: Self)
        ensures
            r.max_depth == 2,
            r.top_k == 10,
            r.edge_types is None,
            r.time_range is None,
            !r.include_history,
            r.min_confidence == 0,
    {
        QueryOptions {
            max_depth: 2,
            top_k: 10,
            edge_types: None,
            time_range: None,
            include_history: false,
            min_confidence: 0,
        }
    }
}

/// How a result was discovered.
#[derive(Debug, Clone, Copy, PartialEq, Eq, Structural)]
pub enum ResultSource {
    VectorSearch,
    GraphTraversal,
    Combined,
}

/// A version summary attached to a query result.
#[derive(Debug)]
pub struct VersionInfo {
    pub version_id: u64,
    pub timestamp: i64,
    pub message: Option<String>,
    pub author: Option<String>,
    pub lines_changed: usize,
}

/// A single ranked result.
#[derive(Debug)]
pub struct QueryResultItem {
    /// The node's id.
    pub node_id: u128,
    /// The node's name.
    pub name: String,
    /// The node's content.
    pub content: String,
    /// How the node was found.
    pub source: ResultSource,
    /// Relevance in thousandths.
    pub score: i64,
    /// Depth from the query origin; zero for a direct vector hit.
    pub depth: usize,
    /// The edge types walked from the origin to this node.
    pub edge_path: Vec<EdgeType>,
    /// Version summaries, when history was requested.
    pub versions: Vec<VersionInfo>,
}

/// The complete result of a query.
#[derive(Debug)]
pub struct QueryResult {
    /// Ranked items, score descending, ties in insertion order.
    pub items: Vec<QueryResultItem>,
    /// How many nodes the query examined.
    pub nodes_examined: usize,
    /// Wall-clock time the query took, in milliseconds.
    pub query_time_ms: u64,
}

/// The full score, in thousandths.
pub const SCORE_FULL: i64 = 1000;

/// The bonus granted to a node found by both search and expansion.
pub const SCORE_BONUS: i64 = 200;

/// The view of an owned optional edge-type filter.
pub open spec fn opt_filter_view(o: Option<Vec<EdgeType>>) -> Option<Seq<EdgeType>> {
    match o {
        None => None,
        Some(v) => Some(v@),
    }
}

/// The score of a node discovered by graph expansion at a depth.
pub open spec fn depth_score(d: usize) -> int {
    if d >= 1000 {
        0
    } else {
        1000int / (1 + d as int)
    }
}

/// The score after one multi-source promotion: two hundred more, capped at
/// the full score, never lowering an already higher score.
pub open spec fn boosted(s: int) -> int {
    if s >= SCORE_FULL - SCORE_BONUS {
        if s > SCORE_FULL {
            s
        } else {
            SCORE_FULL as int
        }
    } else {
        s + SCORE_BONUS
    }
}

/// The item's node is reachable, within the item's depth, from one of the
/// given seed nodes along filtered edges.
pub open spec fn seed_reaches(
    es: Seq<crate::model::Edge>,
    fv: Option<Seq<EdgeType>>,
    seeds: Seq<u128>,
    it: QueryResultItem,
) -> bool {
    exists|j: int|
        0 <= j < seeds.len() && reaches(es, fv, #[trigger] seeds[j], it.node_id, it.depth as nat)
}

/// What one query result item claims, given the stores and the seed ids: a
/// stored node with its own name and content, and a score that says how it
/// was found — a vector hit carries its exact cosine score at depth zero, a
/// graph discovery carries the depth-decay score of a depth at which a seed
/// reaches it, and a multi-source item carries exactly the promoted score
/// of either kind: two hundred more, capped at the full score.
pub open spec fn query_item_ok(
    ns: Seq<crate::model::Node>,
    es: Seq<crate::model::Edge>,
    entries: Seq<(u128, Vec<i64>)>,
    q: Seq<i64>,
    fv: Option<Seq<EdgeType>>,
    seeds: Seq<u128>,
    it: QueryResultItem,
) -> bool {
    &&& has_node(ns, it.node_id)
    &&& it.name == node_with(ns, it.node_id).name
    &&& it.content == node_with(ns, it.node_id).content
    &&& match it.source {
        ResultSource::VectorSearch => it.depth == 0 && has_emb(entries, it.node_id) && it.score
            == milli_cos(q, emb_with(entries, it.node_id).1@),
        ResultSource::GraphTraversal => 1 <= it.depth && it.score == depth_score(it.depth)
            && seed_reaches(es, fv, seeds, it),
        ResultSource::Combined => (it.depth == 0 && has_emb(entries, it.node_id) && it.score
            == boosted(milli_cos(q, emb_with(entries, it.node_id).1@))) || (1 <= it.depth
            && it.score == boosted(depth_score(it.depth)) && seed_reaches(es, fv, seeds, it)),
    }
}

/// Seeds a query: one item per vector hit, in hit order, carrying the
/// node's name and content and the hit's exact cosine score at depth zero.
#[verifier::loop_isolation(false)]
#[verifier::rlimit(100)]
#[verifier::spinoff_prover]
fn seed_query_items(stores: &TransactionManager, qe: &Vec<i64>, top_k: usize) -> (r: OnyxResult<
    Vec<QueryResultItem>,
>)
    requires
        stores.wf(),
        qe@.len() <= DIM_LIMIT,
        coords_bounded(qe@),
    ensures
        r is Ok <==> (stores.vector_store.dims() is None || stores.vector_store.dims() == Some(
            qe@.len() as usize,
        )),
        match r {
            Ok(items) => {
                let ns = stores.graph_store.nodes_seq();
                let es = stores.graph_store.edges_seq();
                let entries = stores.vector_store.entries();
                &&& (forall|i: int, j: int|
                    0 <= i < j < items@.len() ==> (#[trigger] items@[i]).node_id != (
                    #[trigger] items@[j]).node_id)
                &&& (forall|i: int|
                    0 <= i < items@.len() ==> (#[trigger] items@[i]).depth == 0 && items@[i].source
                        is VectorSearch)
                &&& items_ok(ns, es, entries, qe@, Option::None, Seq::empty(), items@)
                &&& floor_ok(entries, qe@, top_k > 0, items@)
                &&& (forall|w: int, v: int|
                    0 <= w < v < items@.len() ==> (#[trigger] items@[w]).score >= (
                    #[trigger] items@[v]).score)
                &&& (forall|w: int, v: int|
                    0 <= w < v < items@.len() ==> (#[trigger] items@[w]).score > (
                    #[trigger] items@[v]).score || emb_idx(entries, items@[w].node_id) < emb_idx(
                        entries,
                        items@[v].node_id,
                    ))
            },
            Err(e) => e matches OnyxError::DimensionMismatch { .. },
        },
{
    let ghost ns = stores.graph_store.nodes_seq();
    let ghost es = stores.graph_store.edges_seq();
    let ghost entries = stores.vector_store.entries();
    let mut items: Vec<QueryResultItem> = Vec::new();
    let hits = match stores.vector_store.search(qe, top_k) {
        Ok(h) => h,
        Err(e) => {
            return Err(e);
        },
    };
    let mut h: usize = 0;
    while h < hits.len()
        invariant
            0 <= h <= hits@.len(),
            forall|w: int|
                0 <= w < hits@.len() ==> has_emb(entries, (#[trigger] hits@[w]).0) && hits@[w].1
                    == milli_cos(qe@, emb_with(entries, hits@[w].0).1@),
            forall|w: int, v: int|
                0 <= w < v < hits@.len() ==> (#[trigger] hits@[w]).0 != (#[trigger] hits@[v]).0,
            forall|w: int, v: int|
                0 <= w < v < hits@.len() ==> (#[trigger] hits@[w]).1 >= (#[trigger] hits@[v]).1,
            forall|w: int, v: int|
                0 <= w < v < hits@.len() ==> (#[trigger] hits@[w]).1 > (#[trigger] hits@[v]).1
                    || emb_idx(entries, hits@[w].0) < emb_idx(entries, hits@[v].0),
            items@.len() == h,
            forall|w: int|
                0 <= w < h ==> (#[trigger] items@[w]).node_id == hits@[w].0 && items@[w].score
                    == hits@[w].1 && items@[w].depth == 0 && items@[w].source is VectorSearch
                    && query_item_ok(ns, es, entries, qe@, Option::None, Seq::empty(), items@[w]),
        decreases hits@.len() - h,
    {
        let hit_id: u128 = hits[h].0;
        let hit_score: i64 = hits[h].1;
        match stores.graph_store.get_node(hit_id) {
            Some(node) => {
                items.push(
                    QueryResultItem {
                        node_id: hit_id,
                        name: node.name.clone(),
                        content: node.content.clone(),
                        source: ResultSource::VectorSearch,
                        score: hit_score,
                        depth: 0,
                        edge_path: Vec::new(),
                        versions: Vec::new(),
                    },
                );
            },
            None => {
                proof {
                    assert(has_emb(entries, hits@[h as int].0));
                    let w = emb_idx(entries, hits@[h as int].0);
                    assert(entries[w].0 == hits@[h as int].0);
                    assert(has_node(ns, entries[w].0));
                    assert(false);
                }
            },
        }
        h = h + 1;
    }
    proof {
        if top_k > 0 && entries.len() > 0 {
            assert(hits@.len() > 0);
            assert(items@[0].score == hits@[0].1);
            assert(forall|j: int|
                0 <= j < entries.len() ==> items@[0].score >= milli_cos(
                    qe@,
                    (#[trigger] entries[j]).1@,
                ));
        }
        assert forall|i: int| 0 <= i < items@.len() implies query_item_ok(
            ns,
            es,
            entries,
            qe@,
            Option::None,
            Seq::empty(),
            #[trigger] items@[i],
        ) by {}
        assert forall|w: int, v: int|
            0 <= w < v < items@.len() implies (#[trigger] items@[w]).score >= (
        #[trigger] items@[v]).score && (items@[w].score > items@[v].score || emb_idx(
            entries,
            items@[w].node_id,
        ) < emb_idx(entries, items@[v].node_id)) by {
            assert(items@[w].score == hits@[w].1 && items@[v].score == hits@[v].1);
            assert(items@[w].node_id == hits@[w].0 && items@[v].node_id == hits@[v].0);
        }
    }
    Ok(items)
}

/// The position in a result list of the item carrying the given id.
pub open spec fn rank_pos(pool: Seq<QueryResultItem>, id: u128) -> int {
    choose|i: int| 0 <= i < pool.len() && pool[i].node_id == id
}

/// Ranks items by score, descending and stable, keeping the item set:
/// every output item is an input item and the other way round, and equal
/// scores keep their input order.
#[verifier::loop_isolation(false)]
#[verifier::rlimit(100)]
#[verifier::spinoff_prover]
fn rank_query_items(items: &mut Vec<QueryResultItem>)
    requires
        forall|i: int, j: int|
            0 <= i < j < old(items)@.len() ==> (#[trigger] old(items)@[i]).node_id != (
            #[trigger] old(items)@[j]).node_id,
    ensures
        final(items)@.len() == old(items)@.len(),
        forall|a: int, b: int|
            0 <= a < b < final(items)@.len() ==> (#[trigger] final(items)@[a]).score >= (
            #[trigger] final(items)@[b]).score,
        forall|a: int, b: int|
            0 <= a < b < final(items)@.len() ==> (#[trigger] final(items)@[a]).node_id != (
            #[trigger] final(items)@[b]).node_id,
        forall|a: int|
            0 <= a < final(items)@.len() ==> old(items)@.contains(#[trigger] final(items)@[a]),
        forall|a: int|
            0 <= a < old(items)@.len() ==> final(items)@.contains(#[trigger] old(items)@[a]),
        forall|a: int, b: int|
            0 <= a < b < final(items)@.len() ==> (#[trigger] final(items)@[a]).score > (
            #[trigger] final(items)@[b]).score || rank_pos(old(items)@, final(items)@[a].node_id)
                < rank_pos(old(items)@, final(items)@[b].node_id),
{
    let ghost pool = items@;
    let mut ranked: Vec<QueryResultItem> = Vec::new();
    let mut rest: Vec<QueryResultItem> = Vec::new();
    core::mem::swap(&mut rest, items);
    proof {
        assert forall|a: int| 0 <= a < pool.len() implies rank_pos(
            pool,
            (#[trigger] pool[a]).node_id,
        ) == a by {
            let y = rank_pos(pool, pool[a].node_id);
            assert(0 <= y < pool.len() && pool[y].node_id == pool[a].node_id) by {
                assert(pool[a].node_id == pool[a].node_id);
            }
        }
    }
    while rest.len() > 0
        invariant
            ranked@.len() + rest@.len() == pool.len(),
            forall|a: int|
                0 <= a < pool.len() ==> rank_pos(pool, (#[trigger] pool[a]).node_id) == a,
            forall|a: int, b: int|
                0 <= a < b < rest@.len() ==> rank_pos(pool, (#[trigger] rest@[a]).node_id)
                    < rank_pos(pool, (#[trigger] rest@[b]).node_id),
            forall|a: int, b: int|
                0 <= a < ranked@.len() && 0 <= b < rest@.len() ==> (#[trigger] ranked@[a]).score
                    > (#[trigger] rest@[b]).score || rank_pos(pool, ranked@[a].node_id) < rank_pos(
                    pool,
                    rest@[b].node_id,
                ),
            forall|a: int, b: int|
                0 <= a < b < ranked@.len() ==> (#[trigger] ranked@[a]).score > (
                #[trigger] ranked@[b]).score || rank_pos(pool, ranked@[a].node_id) < rank_pos(
                    pool,
                    ranked@[b].node_id,
                ),
            forall|a: int, b: int|
                0 <= a < b < ranked@.len() ==> (#[trigger] ranked@[a]).score >= (
                #[trigger] ranked@[b]).score,
            forall|a: int, b: int|
                0 <= a < ranked@.len() && 0 <= b < rest@.len() ==> (#[trigger] ranked@[a]).score
                    >= (#[trigger] rest@[b]).score,
            forall|a: int, b: int|
                0 <= a < b < ranked@.len() ==> (#[trigger] ranked@[a]).node_id != (
                #[trigger] ranked@[b]).node_id,
            forall|a: int, b: int|
                0 <= a < ranked@.len() && 0 <= b < rest@.len() ==> (#[trigger] ranked@[a]).node_id
                    != (#[trigger] rest@[b]).node_id,
            forall|a: int, b: int|
                0 <= a < b < rest@.len() ==> (#[trigger] rest@[a]).node_id != (
                #[trigger] rest@[b]).node_id,
            forall|a: int| 0 <= a < ranked@.len() ==> pool.contains(#[trigger] ranked@[a]),
            forall|a: int| 0 <= a < rest@.len() ==> pool.contains(#[trigger] rest@[a]),
            forall|a: int|
                0 <= a < pool.len() ==> ranked@.contains(#[trigger] pool[a]) || rest@.contains(
                    #[trigger] pool[a],
                ),
        decreases rest@.len(),
    {
        let mut best: usize = 0;
        let mut j: usize = 1;
        while j < rest.len()
            invariant
                0 <= best < j <= rest@.len(),
                rest@.len() > 0,
                forall|a: int| 0 <= a < j ==> rest@[best as int].score >= (#[trigger] rest@[a]).score,
                forall|a: int| 0 <= a < best ==> (#[trigger] rest@[a]).score < rest@[best as int].score,
            decreases rest@.len() - j,
        {
            if rest[j].score > rest[best].score {
                best = j;
            }
            j = j + 1;
        }
        let ghost rest0 = rest@;
        let item: QueryResultItem = rest.remove(best);
        proof {
            assert(item == rest0[best as int]);
            assert(rest0.contains(item)) by {
                assert(rest0[best as int] == item);
            }
            assert forall|a: int|
                0 <= a < rest@.len() implies (#[trigger] rest@[a]).score <= item.score
                && rest@[a].node_id != item.node_id && pool.contains(rest@[a]) && (item.score > (
            #[trigger] rest@[a]).score || rank_pos(pool, item.node_id) < rank_pos(
                pool,
                rest@[a].node_id,
            )) by {
                let orig: int = if a < best {
                    a
                } else {
                    a + 1
                };
                assert(rest@[a] == rest0[orig]);
                if orig < best {
                    assert(rest0[orig].score < rest0[best as int].score);
                } else {
                    assert(rank_pos(pool, rest0[best as int].node_id) < rank_pos(
                        pool,
                        rest0[orig].node_id,
                    ));
                }
            }
            assert forall|a: int, b: int|
                0 <= a < b < rest@.len() implies rank_pos(pool, (#[trigger] rest@[a]).node_id)
                < rank_pos(pool, (#[trigger] rest@[b]).node_id) by {
                let oa: int = if a < best {
                    a
                } else {
                    a + 1
                };
                let ob: int = if b < best {
                    b
                } else {
                    b + 1
                };
                assert(rest@[a] == rest0[oa]);
                assert(rest@[b] == rest0[ob]);
            }
            assert forall|a: int, b: int|
                0 <= a < b < rest@.len() implies (#[trigger] rest@[a]).node_id != (
            #[trigger] rest@[b]).node_id by {
                let oa: int = if a < best {
                    a
                } else {
                    a + 1
                };
                let ob: int = if b < best {
                    b
                } else {
                    b + 1
                };
                assert(rest@[a] == rest0[oa]);
                assert(rest@[b] == rest0[ob]);
            }
            assert forall|a: int|
                0 <= a < pool.len() implies ranked@.push(item).contains(#[trigger] pool[a])
                    || rest@.contains(#[trigger] pool[a]) by {
                if ranked@.contains(pool[a]) {
                    let x = choose|x: int| 0 <= x < ranked@.len() && ranked@[x] == pool[a];
                    assert(ranked@.push(item)[x] == pool[a]);
                } else {
                    assert(rest0.contains(pool[a]));
                    let x = choose|x: int| 0 <= x < rest0.len() && rest0[x] == pool[a];
                    if x == best {
                        assert(ranked@.push(item)[ranked@.len() as int] == item);
                    } else if x < best {
                        assert(rest@[x] == rest0[x]);
                    } else {
                        assert(rest@[x - 1] == rest0[x]);
                    }
                }
            }
        }
        ranked.push(item);
    }


    core::mem::swap(items, &mut ranked);
    proof {
        assert forall|a: int| 0 <= a < pool.len() implies items@.contains(#[trigger] pool[a]) by {
            assert(items@.contains(pool[a]) || rest@.contains(pool[a]));
        }
    }
}

/// The node ids of a result's items, in order.
pub open spec fn ids_of(items: Seq<QueryResultItem>) -> Seq<u128> {
    Seq::new(items.len(), |i: int| items[i].node_id)
}

/// Expands every seed item through the graph and optionally attaches
/// version history: newly reached nodes join at the depth-decay score,
/// nodes found again are promoted, and every node reachable from a seed
/// within the bound ends up present.
#[verifier::loop_isolation(false)]
#[verifier::rlimit(100)]
#[verifier::spinoff_prover]
fn expand_query_items(
    stores: &TransactionManager,
    et_ref: Option<&Vec<EdgeType>>,
    max_depth: usize,
    include_history: bool,
    Ghost(q): Ghost<Seq<i64>>,
    Ghost(searched): Ghost<bool>,
    items: &mut Vec<QueryResultItem>,
) -> (r: OnyxResult<usize>)
    requires
        stores.wf(),
        forall|i: int, j: int|
            0 <= i < j < old(items)@.len() ==> (#[trigger] old(items)@[i]).node_id != (
            #[trigger] old(items)@[j]).node_id,
        forall|i: int|
            0 <= i < old(items)@.len() ==> (#[trigger] old(items)@[i]).depth == 0 && has_node(
                stores.graph_store.nodes_seq(),
                old(items)@[i].node_id,
            ),
        items_ok(
            stores.graph_store.nodes_seq(),
            stores.graph_store.edges_seq(),
            stores.vector_store.entries(),
            q,
            filter_view(et_ref),
            Seq::empty(),
            old(items)@,
        ),
        floor_ok(stores.vector_store.entries(), q, searched, old(items)@),
    ensures
        r is Ok,
        ({
            let ns = stores.graph_store.nodes_seq();
            let es = stores.graph_store.edges_seq();
            let entries = stores.vector_store.entries();
            let fv = filter_view(et_ref);
            let seedsv = ids_of(old(items)@);
            &&& (forall|i: int, j: int|
                0 <= i < j < final(items)@.len() ==> (#[trigger] final(items)@[i]).node_id != (
                #[trigger] final(items)@[j]).node_id)
            &&& items_ok(ns, es, entries, q, fv, seedsv, final(items)@)
            &&& seeds_present(seedsv, final(items)@)
            &&& seeds_only(seedsv, final(items)@)
            &&& floor_ok(entries, q, searched, final(items)@)
            &&& (forall|w: int, id: u128, k: nat|
                0 <= w < seedsv.len() && k <= max_depth && #[trigger] reaches(
                    es,
                    fv,
                    seedsv[w],
                    id,
                    k,
                ) ==> id_present(final(items)@, id))
            &&& seeds_prefix(old(items)@, final(items)@)
        }),
{
    let ghost ns = stores.graph_store.nodes_seq();
    let ghost es = stores.graph_store.edges_seq();
    let ghost entries = stores.vector_store.entries();
    let ghost fv = filter_view(et_ref);
    let ghost base = items@;
    let mut nodes_examined: usize = 0;

    // Collect the seed ids: the depth-zero items.
    let mut seed_ids: Vec<u128> = Vec::new();
    let mut s: usize = 0;
    while s < items.len()
        invariant
            0 <= s <= items@.len(),
            seed_ids@.len() == s,
            forall|i: int| 0 <= i < s ==> #[trigger] seed_ids@[i] == items@[i].node_id,
        decreases items@.len() - s,
    {
        seed_ids.push(items[s].node_id);
        s = s + 1;
    }
    let ghost seedsv = seed_ids@;
    proof {
        assert(floor_ok(entries, q, searched, items@));
        assert(items_ok(ns, es, entries, q, fv, seedsv, items@));
        assert(seeds_present(seedsv, items@));
        assert(seeds_only(seedsv, items@)) by {
            assert forall|i: int|
                0 <= i < items@.len() && (#[trigger] items@[i]).depth == 0 implies seedsv.contains(
                items@[i].node_id,
            ) by {
                assert(seedsv[i] == items@[i].node_id);
            }
        }
    }

    // Expand each seed through the graph.
    let mut s2: usize = 0;
    while s2 < seed_ids.len()
        invariant
            0 <= s2 <= seedsv.len(),
            seed_ids@ == seedsv,
            forall|i: int| 0 <= i < seedsv.len() ==> has_node(ns, #[trigger] seedsv[i]),
            items_ok(ns, es, entries, q, fv, seedsv, items@),
            seeds_present(seedsv, items@),
            seeds_only(seedsv, items@),
            floor_ok(entries, q, searched, items@),
            seeds_prefix(base, items@),
            forall|i: int, j: int|
                0 <= i < j < items@.len() ==> (#[trigger] items@[i]).node_id != (
                #[trigger] items@[j]).node_id,
            forall|w: int, id: u128, k: nat|
                0 <= w < s2 && k <= max_depth && #[trigger] reaches(
                    es,
                    fv,
                    seedsv[w],
                    id,
                    k,
                ) ==> id_present(items@, id),
        decreases seedsv.len() - s2,
    {
        let seed: u128 = seed_ids[s2];
        proof {
            assert(has_node(ns, seedsv[s2 as int]));
        }
        let traversal = match stores.graph_store.traverse(seed, et_ref, max_depth) {
            Ok(t) => t,
            Err(_) => {
                proof {
                    assert(false);
                }
                return Err(OnyxError::NodeNotFound(seed));
            },
        };
        let mut t: usize = 0;
        while t < traversal.nodes.len()
            invariant
                0 <= t <= traversal.nodes@.len(),
                s2 < seedsv.len(),
                seedsv[s2 as int] == seed,
                forall|i: int|
                    0 <= i < traversal.nodes@.len() ==> has_node(
                        ns,
                        (#[trigger] traversal.nodes@[i]).0,
                    ) && traversal.nodes@[i].1 <= max_depth,
                forall|i: int|
                    0 <= i < traversal.nodes@.len() ==> reaches(
                        es,
                        fv,
                        seed,
                        (#[trigger] traversal.nodes@[i]).0,
                        traversal.nodes@[i].1 as nat,
                    ),
                traversal.nodes@.len() >= 1,
                traversal.nodes@[0] == (seed, 0usize),
                forall|id: u128, k: nat|
                    k <= max_depth && #[trigger] reaches(es, fv, seed, id, k)
                        ==> disc_has_within(traversal.nodes@, id, k as int),
                items_ok(ns, es, entries, q, fv, seedsv, items@),
                seeds_present(seedsv, items@),
                seeds_only(seedsv, items@),
                floor_ok(entries, q, searched, items@),
                seeds_prefix(base, items@),
                forall|i: int, j: int|
                    0 <= i < j < items@.len() ==> (#[trigger] items@[i]).node_id != (
                    #[trigger] items@[j]).node_id,
                forall|w: int, id: u128, k: nat|
                    0 <= w < s2 && k <= max_depth && #[trigger] reaches(
                        es,
                        fv,
                        seedsv[w],
                        id,
                        k,
                    ) ==> id_present(items@, id),
                forall|w: int|
                    0 <= w < t ==> id_present(items@, (#[trigger] traversal.nodes@[w]).0),
            decreases traversal.nodes@.len() - t,
        {
            let ghost items0 = items@;
            let (nid, depth): (u128, usize) = traversal.nodes[t];
            if depth > 0 {
                nodes_examined = if nodes_examined < usize::MAX {
                    nodes_examined + 1
                } else {
                    nodes_examined
                };
                proof {
                    assert(has_node(ns, nid)) by {
                        assert(has_node(ns, traversal.nodes@[t as int].0));
                    }
                    assert(reaches(es, fv, seedsv[s2 as int], nid, depth as nat));
                }
                let ghost items_pre = items@;
                absorb_discovery(
                    stores,
                    Ghost(q),
                    Ghost(fv),
                    Ghost(seedsv),
                    Ghost(searched),
                    Ghost(base),
                    Ghost(s2 as int),
                    nid,
                    depth,
                    items,
                );
                proof {
                    assert forall|w: int|
                        0 <= w < t + 1 implies id_present(
                        items@,
                        (#[trigger] traversal.nodes@[w]).0,
                    ) by {
                        if w < t {
                            assert(id_present(items_pre, traversal.nodes@[w].0));
                        }
                    }
                    assert forall|w: int, id: u128, k: nat|
                        0 <= w < s2 && k <= max_depth && #[trigger] reaches(
                            es,
                            fv,
                            seedsv[w],
                            id,
                            k,
                        ) implies id_present(items@, id) by {
                        assert(id_present(items_pre, id));
                    }
                }
            } else {
                proof {
                    assert forall|w: int|
                        0 <= w < t + 1 implies id_present(
                        items@,
                        (#[trigger] traversal.nodes@[w]).0,
                    ) by {
                        if w == t {
                            assert(traversal.nodes@[t as int].0 == seed);
                            assert(seed_item_present(items@, seedsv[s2 as int]));
                            let j = choose|j: int|
                                0 <= j < items@.len() && (#[trigger] items@[j]).node_id == seed
                                    && items@[j].depth == 0;
                        }
                    }
                }
            }
            t = t + 1;
        }
        proof {
            assert forall|w: int, id: u128, k: nat|
                0 <= w < s2 + 1 && k <= max_depth && #[trigger] reaches(
                    es,
                    fv,
                    seedsv[w],
                    id,
                    k,
                ) implies id_present(items@, id) by {
                if w == s2 {
                    assert(disc_has_within(traversal.nodes@, id, k as int));
                    let v = choose|v: int|
                        0 <= v < traversal.nodes@.len() && (#[trigger] traversal.nodes@[v]).0 == id
                            && traversal.nodes@[v].1 <= k as int;
                    assert(id_present(items@, traversal.nodes@[v].0));
                }
            }
        }
        s2 = s2 + 1;
    }

    // Attach version history if requested; only the versions field changes.
    if include_history {
        let ghost items_pre = items@;
        attach_query_history(
            stores,
            Ghost(q),
            Ghost(fv),
            Ghost(seedsv),
            Ghost(searched),
            Ghost(base),
            items,
        );
        proof {
            assert forall|w: int, id: u128, k: nat|
                0 <= w < seedsv.len() && k <= max_depth && #[trigger] reaches(
                    es,
                    fv,
                    seedsv[w],
                    id,
                    k,
                ) implies id_present(items@, id) by {
                assert(id_present(items_pre, id));
            }
        }
    }
    proof {
        assert(seedsv == ids_of(old(items)@)) by {
            assert(seedsv =~= ids_of(old(items)@));
        }
    }
    Ok(nodes_examined)
}

/// Folds one traversal discovery into the result: a new node joins at the
/// depth-decay score, a node already present is promoted once to the
/// multi-source score, and an already promoted one is left alone.
#[verifier::loop_isolation(false)]
#[verifier::rlimit(100)]
#[verifier::spinoff_prover]
fn absorb_discovery(
    stores: &TransactionManager,
    Ghost(q): Ghost<Seq<i64>>,
    Ghost(fv): Ghost<Option<Seq<EdgeType>>>,
    Ghost(seedsv): Ghost<Seq<u128>>,
    Ghost(searched): Ghost<bool>,
    Ghost(base): Ghost<Seq<QueryResultItem>>,
    Ghost(si): Ghost<int>,
    nid: u128,
    depth: usize,
    items: &mut Vec<QueryResultItem>,
)
    requires
        stores.wf(),
        depth >= 1,
        has_node(stores.graph_store.nodes_seq(), nid),
        0 <= si < seedsv.len(),
        reaches(stores.graph_store.edges_seq(), fv, seedsv[si], nid, depth as nat),
        forall|i: int, j: int|
            0 <= i < j < old(items)@.len() ==> (#[trigger] old(items)@[i]).node_id != (
            #[trigger] old(items)@[j]).node_id,
        items_ok(
            stores.graph_store.nodes_seq(),
            stores.graph_store.edges_seq(),
            stores.vector_store.entries(),
            q,
            fv,
            seedsv,
            old(items)@,
        ),
        seeds_present(seedsv, old(items)@),
        seeds_only(seedsv, old(items)@),
        floor_ok(stores.vector_store.entries(), q, searched, old(items)@),
        seeds_prefix(base, old(items)@),
    ensures
        ({
            let ns = stores.graph_store.nodes_seq();
            let es = stores.graph_store.edges_seq();
            let entries = stores.vector_store.entries();
            &&& (forall|i: int, j: int|
                0 <= i < j < final(items)@.len() ==> (#[trigger] final(items)@[i]).node_id != (
                #[trigger] final(items)@[j]).node_id)
            &&& items_ok(ns, es, entries, q, fv, seedsv, final(items)@)
            &&& seeds_present(seedsv, final(items)@)
            &&& seeds_only(seedsv, final(items)@)
            &&& floor_ok(entries, q, searched, final(items)@)
            &&& seeds_prefix(base, final(items)@)
            &&& id_present(final(items)@, nid)
            &&& (forall|id: u128|
                #[trigger] id_present(old(items)@, id) ==> id_present(final(items)@, id))
        }),
{
    let ghost ns = stores.graph_store.nodes_seq();
    let ghost es = stores.graph_store.edges_seq();
    let ghost entries = stores.vector_store.entries();
    let ghost items0 = items@;
                let mut found: usize = 0;
                let mut have: bool = false;
                let mut f: usize = 0;
                while f < items.len()
                    invariant
                        0 <= f <= items@.len(),
                        items@ == items0,
                        !have ==> forall|j: int| 0 <= j < f ==> (#[trigger] items@[j]).node_id != nid,
                        have ==> found < f && items@[found as int].node_id == nid,
                    decreases items@.len() - f, if have {
                        0int
                    } else {
                        1int
                    },
                {
                    if !have && items[f].node_id == nid {
                        found = f;
                        have = true;
                    }
                    f = f + 1;
                }
                if have && !matches!(items[found].source, ResultSource::Combined) {
                    let old_item: QueryResultItem = items.remove(found);
                    let boosted_score: i64 = if old_item.score >= SCORE_FULL - SCORE_BONUS {
                        if old_item.score > SCORE_FULL {
                            old_item.score
                        } else {
                            SCORE_FULL
                        }
                    } else {
                        old_item.score + SCORE_BONUS
                    };
                    let new_item = QueryResultItem {
                        source: ResultSource::Combined,
                        score: boosted_score,
                        ..old_item
                    };
                    items.insert(found, new_item);
                    proof {
                        assert(items@ =~= items0.update(found as int, items@[found as int]));
                        let it = items@[found as int];
                        let old_it = items0[found as int];
                        assert(it.node_id == old_it.node_id && it.depth == old_it.depth && it.name
                            == old_it.name && it.content == old_it.content);
                        assert(it.score == boosted(old_it.score as int));
                        assert(it.score >= old_it.score);
                        assert(query_item_ok(ns, es, entries, q, fv, seedsv, it)) by {
                            assert(query_item_ok(ns, es, entries, q, fv, seedsv, old_it));
                            if old_it.source is GraphTraversal {
                                assert(old_it.score == depth_score(old_it.depth));
                                let w = choose|w: int|
                                    0 <= w < seedsv.len() && reaches(
                                        es,
                                        fv,
                                        #[trigger] seedsv[w],
                                        old_it.node_id,
                                        old_it.depth as nat,
                                    );
                                assert(reaches(es, fv, seedsv[w], it.node_id, it.depth as nat));
                            }
                        }
                        assert(items_ok(ns, es, entries, q, fv, seedsv, items@)) by {
                            assert forall|i: int|
                                0 <= i < items@.len() implies query_item_ok(
                                ns,
                                es,
                                entries,
                                q,
                                fv,
                                seedsv,
                                #[trigger] items@[i],
                            ) by {
                                if i != found {
                                    assert(items@[i] == items0[i]);
                                }
                            }
                        }
                        assert(seeds_prefix(base, items@)) by {
                            assert forall|i: int|
                                0 <= i < base.len() implies (#[trigger] items@[i]).node_id
                                == base[i].node_id && items@[i].depth == 0 && (items@[i].source
                                is VectorSearch ==> base[i].source is VectorSearch
                                && items@[i].score == base[i].score) by {
                                if i != found {
                                    assert(items@[i] == items0[i]);
                                }
                            }
                            assert forall|i: int|
                                base.len() <= i < items@.len() implies (
                            #[trigger] items@[i]).depth >= 1 by {
                                if i != found {
                                    assert(items@[i] == items0[i]);
                                }
                            }
                        }
                        assert(seeds_present(seedsv, items@)) by {
                            assert forall|w: int|
                                0 <= w < seedsv.len() implies seed_item_present(
                                items@,
                                #[trigger] seedsv[w],
                            ) by {
                                let j = choose|j: int|
                                    0 <= j < items0.len() && (#[trigger] items0[j]).node_id
                                        == seedsv[w] && items0[j].depth == 0;
                                assert(items@[j].node_id == seedsv[w] && items@[j].depth == 0);
                            }
                        }
                        assert(seeds_only(seedsv, items@)) by {
                            assert forall|i: int|
                                0 <= i < items@.len() && (#[trigger] items@[i]).depth
                                    == 0 implies seedsv.contains(items@[i].node_id) by {
                                assert(items0[i].depth == items@[i].depth);
                                assert(items0[i].node_id == items@[i].node_id);
                            }
                        }
                        assert(floor_ok(
                            entries,
                            q,
                            searched,
                            items@,
                        )) by {
                            if searched && entries.len() > 0 {
                                let i = choose|i: int|
                                    0 <= i < items0.len() && (#[trigger] items0[i]).depth == 0 && (
                                    forall|j: int|
                                        0 <= j < entries.len() ==> items0[i].score >= milli_cos(
                                            q,
                                            (#[trigger] entries[j]).1@,
                                        ));
                                assert(items@[i].depth == 0 && items@[i].score >= items0[i].score);
                            }
                        }
                        assert forall|i: int, j: int|
                            0 <= i < j < items@.len() implies (#[trigger] items@[i]).node_id != (
                        #[trigger] items@[j]).node_id by {
                            assert(items@[i].node_id == items0[i].node_id);
                            assert(items@[j].node_id == items0[j].node_id);
                        }
                                                                    }
                } else if have {
                    proof {
                                            }
                } else {
                    match stores.graph_store.get_node(nid) {
                        Some(node) => {
                            let depth_points: i64 = if depth >= 1000 {
                                0
                            } else {
                                SCORE_FULL / (1 + depth as i64)
                            };
                            items.push(
                                QueryResultItem {
                                    node_id: nid,
                                    name: node.name.clone(),
                                    content: node.content.clone(),
                                    source: ResultSource::GraphTraversal,
                                    score: depth_points,
                                    depth,
                                    edge_path: Vec::new(),
                                    versions: Vec::new(),
                                },
                            );
                            proof {
                                let it = items@[items@.len() - 1];
                                assert(query_item_ok(ns, es, entries, q, fv, seedsv, it)) by {
                                    assert(seed_reaches(es, fv, seedsv, it)) by {
                                        assert(reaches(
                                            es,
                                            fv,
                                            seedsv[si],
                                            it.node_id,
                                            it.depth as nat,
                                        ));
                                    }
                                }
                                assert(seeds_prefix(base, items@)) by {
                                    assert forall|i: int|
                                        0 <= i < base.len() implies (
                                    #[trigger] items@[i]).node_id == base[i].node_id
                                        && items@[i].depth == 0 && (items@[i].source
                                        is VectorSearch ==> base[i].source is VectorSearch
                                        && items@[i].score == base[i].score) by {
                                        assert(items@[i] == items0[i]);
                                    }
                                    assert forall|i: int|
                                        base.len() <= i < items@.len() implies (
                                    #[trigger] items@[i]).depth >= 1 by {
                                        if i < items0.len() {
                                            assert(items@[i] == items0[i]);
                                        }
                                    }
                                }
                                                                assert(seeds_present(seedsv, items@)) by {
                                    assert forall|w: int|
                                        0 <= w < seedsv.len() implies seed_item_present(
                                        items@,
                                        #[trigger] seedsv[w],
                                    ) by {
                                        let j = choose|j: int|
                                            0 <= j < items0.len() && (#[trigger] items0[j]).node_id
                                                == seedsv[w] && items0[j].depth == 0;
                                        assert(items@[j].node_id == seedsv[w] && items@[j].depth
                                            == 0);
                                    }
                                }
                                assert(floor_ok(
                                    entries,
                                    q,
                                    searched,
                                    items@,
                                )) by {
                                    if searched
                                        && entries.len() > 0 {
                                        let i = choose|i: int|
                                            0 <= i < items0.len() && (#[trigger] items0[i]).depth
                                                == 0 && (forall|j: int|
                                                0 <= j < entries.len() ==> items0[i].score
                                                    >= milli_cos(q, (#[trigger] entries[j]).1@));
                                        assert(items@[i].depth == 0 && items@[i].score
                                            == items0[i].score);
                                    }
                                }
                                                            }
                        },
                        None => {
                            proof {
                                assert(false);
                            }
                        },
                    }
                }

    proof {
        assert(id_present(items@, nid)) by {
            if items@.len() > items0.len() {
                assert(items@[items@.len() - 1].node_id == nid);
            }
        }
        assert forall|id: u128| #[trigger] id_present(items0, id) implies id_present(
            items@,
            id,
        ) by {
            let j = choose|j: int| 0 <= j < items0.len() && (#[trigger] items0[j]).node_id == id;
            assert(items@[j].node_id == id);
        }
    }
}

/// Attaches version summaries to every item; everything but the versions
/// field is untouched, so every stated property of the list survives.
#[verifier::loop_isolation(false)]
#[verifier::rlimit(100)]
#[verifier::spinoff_prover]
fn attach_query_history(
    stores: &TransactionManager,
    Ghost(q): Ghost<Seq<i64>>,
    Ghost(fv): Ghost<Option<Seq<EdgeType>>>,
    Ghost(seedsv): Ghost<Seq<u128>>,
    Ghost(searched): Ghost<bool>,
    Ghost(base): Ghost<Seq<QueryResultItem>>,
    items: &mut Vec<QueryResultItem>,
)
    requires
        stores.wf(),
        forall|i: int, j: int|
            0 <= i < j < old(items)@.len() ==> (#[trigger] old(items)@[i]).node_id != (
            #[trigger] old(items)@[j]).node_id,
        items_ok(
            stores.graph_store.nodes_seq(),
            stores.graph_store.edges_seq(),
            stores.vector_store.entries(),
            q,
            fv,
            seedsv,
            old(items)@,
        ),
        seeds_present(seedsv, old(items)@),
        seeds_only(seedsv, old(items)@),
        floor_ok(stores.vector_store.entries(), q, searched, old(items)@),
        seeds_prefix(base, old(items)@),
    ensures
        ({
            let ns = stores.graph_store.nodes_seq();
            let es = stores.graph_store.edges_seq();
            let entries = stores.vector_store.entries();
            &&& (forall|i: int, j: int|
                0 <= i < j < final(items)@.len() ==> (#[trigger] final(items)@[i]).node_id != (
                #[trigger] final(items)@[j]).node_id)
            &&& items_ok(ns, es, entries, q, fv, seedsv, final(items)@)
            &&& seeds_present(seedsv, final(items)@)
            &&& seeds_only(seedsv, final(items)@)
            &&& floor_ok(entries, q, searched, final(items)@)
            &&& seeds_prefix(base, final(items)@)
            &&& (forall|id: u128|
                #[trigger] id_present(old(items)@, id) ==> id_present(final(items)@, id))
        }),
{
    let ghost ns = stores.graph_store.nodes_seq();
    let ghost es = stores.graph_store.edges_seq();
    let ghost entries = stores.vector_store.entries();
    let mut with_history: Vec<QueryResultItem> = Vec::new();
    let mut rest: Vec<QueryResultItem> = Vec::new();
    core::mem::swap(&mut rest, items);
    let ghost all = rest@;
    let rlen: usize = rest.len();
    let ghost total: int = all.len() as int;
    proof {
        assert(total == rlen);
    }
    let mut w: usize = 0;
    while rest.len() > 0
        invariant
            w == total - rest@.len(),
            0 <= w <= total,
            total <= usize::MAX,
            rest@ =~= all.subrange(w as int, total),
            with_history@.len() == w,
            forall|i: int|
                0 <= i < w ==> #[trigger] with_history@[i] == (QueryResultItem {
                    versions: with_history@[i].versions,
                    ..all[i]
                }),
        decreases rest@.len(),
    {
        let mut item: QueryResultItem = rest.remove(0);
        proof {
            assert(item == all[w as int]);
        }
        let versions = stores.history_store.list_versions(item.node_id);
        let mut v: usize = 0;
        let mut infos: Vec<VersionInfo> = Vec::new();
        while v < versions.len()
            invariant
                0 <= v <= versions@.len(),
            decreases versions@.len() - v,
        {
            let entry = versions[v];
            infos.push(
                VersionInfo {
                    version_id: entry.version_id,
                    timestamp: entry.timestamp,
                    message: match &entry.message {
                        Some(msg) => Some(msg.clone()),
                        None => None,
                    },
                    author: match &entry.author {
                        Some(a) => Some(a.clone()),
                        None => None,
                    },
                    lines_changed: entry.diff.lines_changed(),
                },
            );
            v = v + 1;
        }
        item.versions = infos;
        with_history.push(item);
        w = w + 1;
    }
    core::mem::swap(items, &mut with_history);
    proof {
        assert forall|i: int| 0 <= i < items@.len() implies query_item_ok(
            ns,
            es,
            entries,
            q,
            fv,
            seedsv,
            #[trigger] items@[i],
        ) by {
            assert(query_item_ok(ns, es, entries, q, fv, seedsv, all[i]));
            assert(items@[i].node_id == all[i].node_id && items@[i].name == all[i].name
                && items@[i].content == all[i].content && items@[i].source == all[i].source
                && items@[i].score == all[i].score && items@[i].depth == all[i].depth);
        }
        assert(seeds_present(seedsv, items@)) by {
            assert forall|x: int|
                0 <= x < seedsv.len() implies seed_item_present(items@, #[trigger] seedsv[x]) by {
                let j = choose|j: int|
                    0 <= j < all.len() && (#[trigger] all[j]).node_id == seedsv[x] && all[j].depth
                        == 0;
                assert(items@[j].node_id == seedsv[x] && items@[j].depth == 0);
            }
        }
        assert(seeds_only(seedsv, items@)) by {
            assert forall|i: int|
                0 <= i < items@.len() && (#[trigger] items@[i]).depth == 0 implies seedsv.contains(
                items@[i].node_id,
            ) by {
                assert(all[i].depth == items@[i].depth && all[i].node_id == items@[i].node_id);
            }
        }
        assert(floor_ok(entries, q, searched, items@)) by {
            if searched && entries.len() > 0 {
                let i = choose|i: int|
                    0 <= i < all.len() && (#[trigger] all[i]).depth == 0 && (forall|j: int|
                        0 <= j < entries.len() ==> all[i].score >= milli_cos(
                            q,
                            (#[trigger] entries[j]).1@,
                        ));
                assert(items@[i].depth == 0 && items@[i].score == all[i].score);
            }
        }
        assert forall|i: int, j: int|
            0 <= i < j < items@.len() implies (#[trigger] items@[i]).node_id != (
        #[trigger] items@[j]).node_id by {
            assert(items@[i].node_id == all[i].node_id && items@[j].node_id == all[j].node_id);
        }
        assert(seeds_prefix(base, items@)) by {
            assert forall|i: int|
                0 <= i < base.len() implies (#[trigger] items@[i]).node_id == base[i].node_id
                && items@[i].depth == 0 && (items@[i].source is VectorSearch ==> base[i].source
                is VectorSearch && items@[i].score == base[i].score) by {
                assert(items@[i].node_id == all[i].node_id && items@[i].depth == all[i].depth
                    && items@[i].source == all[i].source && items@[i].score == all[i].score);
            }
            assert forall|i: int|
                base.len() <= i < items@.len() implies (#[trigger] items@[i]).depth >= 1 by {
                assert(items@[i].depth == all[i].depth);
            }
        }
        assert forall|id: u128| #[trigger] id_present(all, id) implies id_present(items@, id) by {
            let j = choose|j: int| 0 <= j < all.len() && (#[trigger] all[j]).node_id == id;
            assert(items@[j].node_id == id);
        }
    }
}

/// Everything established of the pre-ranking pool carries over to its
/// ranked permutation, including the stable tie-breaking facts.
#[verifier::rlimit(100)]
#[verifier::spinoff_prover]
proof fn lemma_ranked_query_facts(
    ns: Seq<crate::model::Node>,
    es: Seq<crate::model::Edge>,
    entries: Seq<(u128, Vec<i64>)>,
    q: Seq<i64>,
    fv: Option<Seq<EdgeType>>,
    seedsv: Seq<u128>,
    seed_items: Seq<QueryResultItem>,
    pool: Seq<QueryResultItem>,
    ranked: Seq<QueryResultItem>,
    max_depth: usize,
    searched: bool,
)
    requires
        items_ok(ns, es, entries, q, fv, seedsv, pool),
        seeds_present(seedsv, pool),
        seeds_only(seedsv, pool),
        floor_ok(entries, q, searched, pool),
        seeds_prefix(seed_items, pool),
        forall|i: int, j: int|
            0 <= i < j < pool.len() ==> (#[trigger] pool[i]).node_id != (#[trigger] pool[j]).node_id,
        forall|w: int, id: u128, k: nat|
            0 <= w < seedsv.len() && k <= max_depth && #[trigger] reaches(es, fv, seedsv[w], id, k)
                ==> id_present(pool, id),
        forall|w: int, v: int|
            0 <= w < v < seed_items.len() ==> (#[trigger] seed_items[w]).score >= (
            #[trigger] seed_items[v]).score,
        forall|w: int, v: int|
            0 <= w < v < seed_items.len() ==> (#[trigger] seed_items[w]).score > (
            #[trigger] seed_items[v]).score || emb_idx(entries, seed_items[w].node_id) < emb_idx(
                entries,
                seed_items[v].node_id,
            ),
        ranked.len() == pool.len(),
        forall|a: int, b: int|
            0 <= a < b < ranked.len() ==> (#[trigger] ranked[a]).score >= (
            #[trigger] ranked[b]).score,
        forall|a: int, b: int|
            0 <= a < b < ranked.len() ==> (#[trigger] ranked[a]).node_id != (
            #[trigger] ranked[b]).node_id,
        forall|a: int| 0 <= a < ranked.len() ==> pool.contains(#[trigger] ranked[a]),
        forall|a: int| 0 <= a < pool.len() ==> ranked.contains(#[trigger] pool[a]),
        forall|a: int, b: int|
            0 <= a < b < ranked.len() ==> (#[trigger] ranked[a]).score > (
            #[trigger] ranked[b]).score || rank_pos(pool, ranked[a].node_id) < rank_pos(
                pool,
                ranked[b].node_id,
            ),
    ensures
        forall|i: int|
            0 <= i < ranked.len() ==> query_item_ok(ns, es, entries, q, fv, seedsv, #[trigger] ranked[i]),
        forall|i: int, id: u128, k: nat|
            0 <= i < ranked.len() && (#[trigger] ranked[i]).depth == 0 && k <= max_depth
                && #[trigger] reaches(es, fv, ranked[i].node_id, id, k) ==> id_present(ranked, id),
        floor_ok(entries, q, searched, ranked),
        seeds_present(seedsv, ranked),
        forall|a: int, b: int|
            0 <= a < b < ranked.len() && (#[trigger] ranked[a]).score == (
            #[trigger] ranked[b]).score && ranked[b].depth == 0 ==> ranked[a].depth == 0,
        forall|a: int, b: int|
            0 <= a < b < ranked.len() && (#[trigger] ranked[a]).score == (
            #[trigger] ranked[b]).score && ranked[a].source is VectorSearch && ranked[b].source
                is VectorSearch ==> emb_idx(entries, ranked[a].node_id) < emb_idx(
                entries,
                ranked[b].node_id,
            ),
        forall|i: int|
            0 <= i < ranked.len() && !((#[trigger] ranked[i]).source is VectorSearch)
                ==> seed_reaches_result(es, fv, ranked, ranked[i]) || query_item_ok(
                ns,
                es,
                entries,
                q,
                fv,
                Seq::empty(),
                ranked[i],
            ),
{
        assert(floor_ok(entries, q, searched, pool));
        // Everything known of the pool carries over to the ranked
        // permutation.
        assert forall|i: int| 0 <= i < ranked.len() implies query_item_ok(
            ns,
            es,
            entries,
            q,
            fv,
            seedsv,
            #[trigger] ranked[i],
        ) by {
            assert(pool.contains(ranked[i]));
            let a = choose|a: int| 0 <= a < pool.len() && pool[a] == ranked[i];
            assert(query_item_ok(ns, es, entries, q, fv, seedsv, pool[a]));
        }
        assert forall|i: int, id: u128, k: nat|
            0 <= i < ranked.len() && (#[trigger] ranked[i]).depth == 0 && k <= max_depth
                && #[trigger] reaches(es, fv, ranked[i].node_id, id, k) implies id_present(
            ranked,
            id,
        ) by {
            assert(pool.contains(ranked[i]));
            let a = choose|a: int| 0 <= a < pool.len() && pool[a] == ranked[i];
            assert(id_present(pool, id));
            let b = choose|b: int| 0 <= b < pool.len() && (#[trigger] pool[b]).node_id == id;
            assert(ranked.contains(pool[b]));
            let c = choose|c: int| 0 <= c < ranked.len() && ranked[c] == pool[b];
            assert(ranked[c].node_id == id);
        }
        if searched && entries.len() > 0 {
            let i = choose|i: int|
                0 <= i < pool.len() && (#[trigger] pool[i]).depth == 0 && (forall|j: int|
                    0 <= j < entries.len() ==> pool[i].score >= milli_cos(
                        q,
                        (#[trigger] entries[j]).1@,
                    ));
            assert(ranked.contains(pool[i]));
            let c = choose|c: int| 0 <= c < ranked.len() && ranked[c] == pool[i];
            assert(ranked[c].depth == 0);
        }
        assert(seeds_present(seedsv, ranked)) by {
            assert forall|x: int|
                0 <= x < seedsv.len() implies seed_item_present(ranked, #[trigger] seedsv[x]) by {
                let j = choose|j: int|
                    0 <= j < pool.len() && (#[trigger] pool[j]).node_id == seedsv[x] && pool[j].depth
                        == 0;
                assert(ranked.contains(pool[j]));
                let c = choose|c: int| 0 <= c < ranked.len() && ranked[c] == pool[j];
                assert(ranked[c].node_id == seedsv[x] && ranked[c].depth == 0);
            }
        }
        // Stable tie-breaking: positions in the pre-ranking pool decide
        // ties, seeds sit in a prefix of that pool, and seed order follows
        // the hit order of the vector search.
        assert forall|c: int| 0 <= c < pool.len() implies rank_pos(
            pool,
            (#[trigger] pool[c]).node_id,
        ) == c by {
            let y = rank_pos(pool, pool[c].node_id);
            assert(0 <= y < pool.len() && pool[y].node_id == pool[c].node_id) by {
                assert(pool[c].node_id == pool[c].node_id);
            }
        }
        assert forall|a: int, b: int|
            0 <= a < b < ranked.len() && (#[trigger] ranked[a]).score == (
            #[trigger] ranked[b]).score && ranked[b].depth == 0 implies ranked[a].depth == 0 by {
            assert(pool.contains(ranked[a]));
            let ca = choose|c: int| 0 <= c < pool.len() && pool[c] == ranked[a];
            assert(rank_pos(pool, ranked[a].node_id) == ca);
            assert(pool.contains(ranked[b]));
            let cb = choose|c: int| 0 <= c < pool.len() && pool[c] == ranked[b];
            assert(rank_pos(pool, ranked[b].node_id) == cb);
            assert(ca < cb);
            assert(cb < seed_items.len()) by {
                if cb >= seed_items.len() {
                    assert(pool[cb].depth >= 1);
                }
            }
            assert(pool[ca].depth == 0);
        }
        assert forall|a: int, b: int|
            0 <= a < b < ranked.len() && (#[trigger] ranked[a]).score == (
            #[trigger] ranked[b]).score && ranked[a].source is VectorSearch && ranked[b].source
            is VectorSearch implies emb_idx(entries, ranked[a].node_id) < emb_idx(
            entries,
            ranked[b].node_id,
        ) by {
            assert(pool.contains(ranked[a]));
            let ca = choose|c: int| 0 <= c < pool.len() && pool[c] == ranked[a];
            assert(rank_pos(pool, ranked[a].node_id) == ca);
            assert(pool.contains(ranked[b]));
            let cb = choose|c: int| 0 <= c < pool.len() && pool[c] == ranked[b];
            assert(rank_pos(pool, ranked[b].node_id) == cb);
            assert(ca < cb);
            assert(query_item_ok(ns, es, entries, q, fv, seedsv, pool[ca]));
            assert(query_item_ok(ns, es, entries, q, fv, seedsv, pool[cb]));
            assert(pool[ca].depth == 0 && pool[cb].depth == 0);
            assert(ca < seed_items.len()) by {
                if ca >= seed_items.len() {
                    assert(pool[ca].depth >= 1);
                }
            }
            assert(cb < seed_items.len()) by {
                if cb >= seed_items.len() {
                    assert(pool[cb].depth >= 1);
                }
            }
            assert(seed_items[ca].source is VectorSearch && pool[ca].score
                == seed_items[ca].score);
            assert(seed_items[cb].source is VectorSearch && pool[cb].score
                == seed_items[cb].score);
            assert(seed_items[ca].score == seed_items[cb].score);
            assert(emb_idx(entries, seed_items[ca].node_id) < emb_idx(
                entries,
                seed_items[cb].node_id,
            ));
            assert(seed_items[ca].node_id == pool[ca].node_id && seed_items[cb].node_id
                == pool[cb].node_id);
        }
        // Each item's seed witness, restated against the result's own
        // depth-zero items.
        assert forall|i: int|
            0 <= i < ranked.len() && !((#[trigger] ranked[i]).source
                is VectorSearch) implies seed_reaches_result(es, fv, ranked, ranked[i])
            || query_item_ok(ns, es, entries, q, fv, Seq::empty(), ranked[i]) by {
            let it = ranked[i];
            assert(query_item_ok(ns, es, entries, q, fv, seedsv, it));
            if seed_reaches(es, fv, seedsv, it) {
                let w = choose|w: int|
                    0 <= w < seedsv.len() && reaches(
                        es,
                        fv,
                        #[trigger] seedsv[w],
                        it.node_id,
                        it.depth as nat,
                    );
                assert(seed_item_present(ranked, seedsv[w]));
                let s = choose|s: int|
                    0 <= s < ranked.len() && (#[trigger] ranked[s]).node_id == seedsv[w]
                        && ranked[s].depth == 0;
                assert(seed_reaches_result(es, fv, ranked, it)) by {
                    assert(reaches(es, fv, ranked[s].node_id, it.node_id, it.depth as nat));
                }
            } else {
                assert(query_item_ok(ns, es, entries, q, fv, Seq::empty(), it));
            }
        }

}

/// Executes a semantic query: seed with the top-k vector hits, expand each
/// seed through the graph, optionally attach history, and rank.  On
/// success: items carry distinct ids, ranked by score descending; every
/// item satisfies `query_item_ok` against the result's own depth-zero
/// items as seeds; every node reachable from a seed within the depth bound
/// appears; and when the store holds any embedding, some depth-zero item
/// scores at least every stored vector's cosine.  Fails exactly when an
/// embedding is given whose dimension differs from the vector store's.
#[verifier::loop_isolation(false)]
#[verifier::rlimit(100)]
#[verifier::spinoff_prover]
pub fn execute_query(
    stores: &TransactionManager,
    query_embedding: Option<&Vec<i64>>,
    options: &QueryOptions,
) -> (r: OnyxResult<QueryResult>)
    requires
        stores.wf(),
        match query_embedding {
            Some(q) => q@.len() <= DIM_LIMIT && coords_bounded(q@),
            None => true,
        },
    ensures
        r is Ok <==> (query_embedding is None || stores.vector_store.dims() is None
            || stores.vector_store.dims() == Some(query_embedding->0@.len() as usize)),
        match r {
            Ok(res) => {
                let ns = stores.graph_store.nodes_seq();
                let es = stores.graph_store.edges_seq();
                let entries = stores.vector_store.entries();
                let q = match query_embedding {
                    Some(qv) => qv@,
                    None => Seq::empty(),
                };
                let fv = opt_filter_view(options.edge_types);
                let items = res.items@;
                &&& (forall|i: int, j: int|
                    0 <= i < j < items.len() ==> (#[trigger] items[i]).node_id != (
                    #[trigger] items[j]).node_id)
                &&& (forall|i: int, j: int|
                    0 <= i < j < items.len() ==> (#[trigger] items[i]).score >= (
                    #[trigger] items[j]).score)
                &&& (forall|i: int|
                    0 <= i < items.len() ==> {
                        let it = #[trigger] items[i];
                        &&& has_node(ns, it.node_id)
                        &&& it.name == node_with(ns, it.node_id).name
                        &&& it.content == node_with(ns, it.node_id).content
                        &&& match it.source {
                            ResultSource::VectorSearch => it.depth == 0 && has_emb(
                                entries,
                                it.node_id,
                            ) && it.score == milli_cos(q, emb_with(entries, it.node_id).1@),
                            ResultSource::GraphTraversal => 1 <= it.depth && it.score
                                == depth_score(it.depth) && seed_reaches_result(es, fv, items, it),
                            ResultSource::Combined => (it.depth == 0 && has_emb(
                                entries,
                                it.node_id,
                            ) && it.score == boosted(
                                milli_cos(q, emb_with(entries, it.node_id).1@),
                            )) || (1 <= it.depth && it.score == boosted(depth_score(it.depth))
                                && seed_reaches_result(es, fv, items, it)),
                        }
                    })
                &&& (forall|i: int, id: u128, k: nat|
                    0 <= i < items.len() && (#[trigger] items[i]).depth == 0 && k
                        <= options.max_depth && #[trigger] reaches(es, fv, items[i].node_id, id, k)
                        ==> exists|j: int| 0 <= j < items.len() && (#[trigger] items[j]).node_id == id)
                &&& (query_embedding is Some && options.top_k > 0 && entries.len() > 0 ==> exists|
                    i: int,
                |
                    0 <= i < items.len() && (#[trigger] items[i]).depth == 0 && (forall|j: int|
                        0 <= j < entries.len() ==> items[i].score >= milli_cos(
                            q,
                            (#[trigger] entries[j]).1@,
                        )))
                &&& (forall|a: int, b: int|
                    0 <= a < b < items.len() && (#[trigger] items[a]).score == (
                    #[trigger] items[b]).score && items[b].depth == 0 ==> items[a].depth == 0)
                &&& (forall|a: int, b: int|
                    0 <= a < b < items.len() && (#[trigger] items[a]).score == (
                    #[trigger] items[b]).score && items[a].source is VectorSearch
                        && items[b].source is VectorSearch ==> emb_idx(entries, items[a].node_id)
                        < emb_idx(entries, items[b].node_id))
            },
            Err(e) => e matches OnyxError::DimensionMismatch { .. },
        },
{
    let start: i64 = now_millis();
    let mut items: Vec<QueryResultItem> = Vec::new();
    let mut nodes_examined: usize = 0;
    let ghost ns = stores.graph_store.nodes_seq();
    let ghost es = stores.graph_store.edges_seq();
    let ghost entries = stores.vector_store.entries();
    let et_ref: Option<&Vec<EdgeType>> = options.edge_types.as_ref();
    let ghost fv = filter_view(et_ref);
    proof {
        assert(fv == opt_filter_view(options.edge_types));
    }
    let ghost q: Seq<i64> = match query_embedding {
        Some(qv) => qv@,
        None => Seq::empty(),
    };
    let ghost searched = query_embedding is Some && options.top_k > 0;

    // Seed with the top-k vector hits; the manager's invariant makes every
    // hit's node present.
    match query_embedding {
        Some(qe) => {
            let seeded = match seed_query_items(stores, qe, options.top_k) {
                Ok(v) => v,
                Err(e) => {
                    return Err(e);
                },
            };
            nodes_examined = seeded.len();
            items = seeded;
            proof {
                assert forall|i: int| 0 <= i < items@.len() implies query_item_ok(
                    ns,
                    es,
                    entries,
                    q,
                    fv,
                    Seq::empty(),
                    #[trigger] items@[i],
                ) by {
                    assert(query_item_ok(
                        ns,
                        es,
                        entries,
                        q,
                        Option::None,
                        Seq::empty(),
                        items@[i],
                    ));
                    assert(items@[i].source is VectorSearch);
                }
            }
        },
        None => {},
    }

    // Expand through the graph, then optionally attach history, then rank.
    let ghost seed_items = items@;
    let ghost seedsv = ids_of(items@);
    let examined = match expand_query_items(
        stores,
        et_ref,
        options.max_depth,
        options.include_history,
        Ghost(q),
        Ghost(searched),
        &mut items,
    ) {
        Ok(n) => n,
        Err(e) => {
            return Err(e);
        },
    };
    nodes_examined = crate::model::saturating_add(nodes_examined, examined);

    // Rank by score, descending, stable; the item set is unchanged.
    let ghost pool = items@;
    rank_query_items(&mut items);
    proof {
        lemma_ranked_query_facts(
            ns,
            es,
            entries,
            q,
            fv,
            seedsv,
            seed_items,
            pool,
            items@,
            options.max_depth,
            searched,
        );
    }

    let end: i64 = now_millis();
    let elapsed: u64 = if end > start {
        ((end as i128) - (start as i128)) as u64
    } else {
        0
    };
    Ok(QueryResult { items, nodes_examined, query_time_ms: elapsed })
}

/// The item's node is reachable, within the item's depth, from one of the
/// result's own depth-zero items.
pub open spec fn seed_reaches_result(
    es: Seq<crate::model::Edge>,
    fv: Option<Seq<EdgeType>>,
    items: Seq<QueryResultItem>,
    it: QueryResultItem,
) -> bool {
    exists|s: int|
        0 <= s < items.len() && (#[trigger] items[s]).depth == 0 && reaches(
            es,
            fv,
            items[s].node_id,
            it.node_id,
            it.depth as nat,
        )
}

/// The expansion keeps every seed at its position: node id and depth zero
/// unchanged, and an item still marked a vector hit keeps its source and
/// score; everything appended is a discovery at depth one or more.
pub open spec fn seeds_prefix(base: Seq<QueryResultItem>, items: Seq<QueryResultItem>) -> bool {
    &&& items.len() >= base.len()
    &&& (forall|i: int|
        0 <= i < base.len() ==> (#[trigger] items[i]).node_id == base[i].node_id && items[i].depth
            == 0 && (items[i].source is VectorSearch ==> base[i].source is VectorSearch
            && items[i].score == base[i].score))
    &&& (forall|i: int| base.len() <= i < items.len() ==> (#[trigger] items[i]).depth >= 1)
}

/// Every item of a result satisfies its per-item claim.
pub open spec fn items_ok(
    ns: Seq<crate::model::Node>,
    es: Seq<crate::model::Edge>,
    entries: Seq<(u128, Vec<i64>)>,
    q: Seq<i64>,
    fv: Option<Seq<EdgeType>>,
    seeds: Seq<u128>,
    items: Seq<QueryResultItem>,
) -> bool {
    forall|i: int|
        0 <= i < items.len() ==> query_item_ok(ns, es, entries, q, fv, seeds, #[trigger] items[i])
}

/// A depth-zero item carrying the given id is present.
pub open spec fn seed_item_present(items: Seq<QueryResultItem>, id: u128) -> bool {
    exists|j: int| 0 <= j < items.len() && (#[trigger] items[j]).node_id == id && items[j].depth == 0
}

/// Every seed id has its depth-zero item.
pub open spec fn seeds_present(seeds: Seq<u128>, items: Seq<QueryResultItem>) -> bool {
    forall|x: int| 0 <= x < seeds.len() ==> seed_item_present(items, #[trigger] seeds[x])
}

/// Every depth-zero item is one of the seeds.
pub open spec fn seeds_only(seeds: Seq<u128>, items: Seq<QueryResultItem>) -> bool {
    forall|i: int|
        0 <= i < items.len() && (#[trigger] items[i]).depth == 0 ==> seeds.contains(
            items[i].node_id,
        )
}

/// An item carrying the given id is present.
pub open spec fn id_present(items: Seq<QueryResultItem>, id: u128) -> bool {
    exists|j: int| 0 <= j < items.len() && (#[trigger] items[j]).node_id == id
}

/// When vector search ran over a nonempty store, some depth-zero item
/// scores at least every stored vector's cosine.
pub open spec fn floor_ok(
    entries: Seq<(u128, Vec<i64>)>,
    q: Seq<i64>,
    searched: bool,
    items: Seq<QueryResultItem>,
) -> bool {
    searched && entries.len() > 0 ==> exists|i: int|
        0 <= i < items.len() && (#[trigger] items[i]).depth == 0 && (forall|j: int|
            0 <= j < entries.len() ==> items[i].score >= milli_cos(q, (#[trigger] entries[j]).1@))
}


/// The edge types that carry impact: a change to a node affects the nodes
/// that reach it through these.
pub open spec fn impact_edge_types() -> Seq<EdgeType> {
    seq![
        EdgeType::Calls,
        EdgeType::Imports,
        EdgeType::DependsOn,
        EdgeType::Documents,
        EdgeType::TestsOf,
    ]
}

/// Builds the impact edge-type filter.
fn impact_edges() -> (r: Vec<EdgeType>)
    ensures
        r@ == impact_edge_types(),
{
    let mut r: Vec<EdgeType> = Vec::new();
    r.push(EdgeType::Calls);
    r.push(EdgeType::Imports);
    r.push(EdgeType::DependsOn);
    r.push(EdgeType::Documents);
    r.push(EdgeType::TestsOf);
    proof {
        assert(r@ =~= impact_edge_types());
    }
    r
}

/// The id reaches the changed node within `k` hops along impact-bearing
/// edges, walked forward.
pub open spec fn impact_reaches(
    es: Seq<crate::model::Edge>,
    start: u128,
    id: u128,
    k: nat,
) -> bool
    decreases k,
{
    id == start || (k > 0 && exists|j: int|
        0 <= j < es.len() && (#[trigger] es[j]).source_id == id && impact_edge_types().contains(
            es[j].edge_type,
        ) && impact_reaches(es, start, es[j].target_id, (k - 1) as nat))
}

/// A reverse-discovery list mentions an id at or below a distance bound.
pub open spec fn rdisc_within(d: Seq<(u128, usize)>, id: u128, bound: int) -> bool {
    exists|j: int| 0 <= j < d.len() && (#[trigger] d[j]).0 == id && d[j].1 <= bound
}

/// Entry `i` of a reverse-discovery list was found one level beyond an
/// earlier entry, through an impact-bearing edge into that entry.
pub open spec fn rreached_from(es: Seq<crate::model::Edge>, d: Seq<(u128, usize)>, i: int) -> bool {
    exists|j: int, kk: int|
        #![trigger d[j], es[kk]]
        0 <= j < i && 0 <= kk < es.len() && d[i].1 == d[j].1 + 1 && es[kk].target_id == d[j].0
            && es[kk].source_id == d[i].0 && impact_edge_types().contains(es[kk].edge_type)
}

/// In a sound reverse discovery rooted at the changed node, every entry
/// reaches the root within its recorded distance.
proof fn lemma_rsound_entry_reaches(
    es: Seq<crate::model::Edge>,
    start: u128,
    d: Seq<(u128, usize)>,
    i: int,
)
    requires
        d.len() >= 1,
        d[0] == (start, 0usize),
        forall|w: int| 1 <= w < d.len() ==> #[trigger] rreached_from(es, d, w),
        0 <= i < d.len(),
    ensures
        impact_reaches(es, start, d[i].0, d[i].1 as nat),
    decreases i,
{
    if i > 0 {
        assert(rreached_from(es, d, i));
        let (j, kk): (int, int) = choose|j: int, kk: int|
            #![trigger d[j], es[kk]]
            0 <= j < i && 0 <= kk < es.len() && d[i].1 == d[j].1 + 1 && es[kk].target_id == d[j].0
                && es[kk].source_id == d[i].0 && impact_edge_types().contains(es[kk].edge_type);
        lemma_rsound_entry_reaches(es, start, d, j);
        assert(impact_reaches(es, start, es[kk].target_id, d[j].1 as nat));
    }
}

/// In a depth-closed reverse discovery, every id that reaches the root
/// within the bound is discovered at or below its distance.
proof fn lemma_rreachable_found(
    es: Seq<crate::model::Edge>,
    start: u128,
    max_depth: usize,
    d: Seq<(u128, usize)>,
    id: u128,
    k: nat,
)
    requires
        d.len() >= 1,
        d[0] == (start, 0usize),
        forall|i: int, kk: int|
            0 <= i < d.len() && 0 <= kk < es.len() && (#[trigger] d[i]).1 < max_depth && (
            #[trigger] es[kk]).target_id == d[i].0 && impact_edge_types().contains(
                es[kk].edge_type,
            ) ==> rdisc_within(d, es[kk].source_id, d[i].1 + 1),
        impact_reaches(es, start, id, k),
        k <= max_depth,
    ensures
        rdisc_within(d, id, k as int),
    decreases k,
{
    if id == start {
        assert(d[0].0 == id && d[0].1 <= k as int);
    } else {
        let j = choose|j: int|
            0 <= j < es.len() && (#[trigger] es[j]).source_id == id
                && impact_edge_types().contains(es[j].edge_type) && impact_reaches(
                es,
                start,
                es[j].target_id,
                (k - 1) as nat,
            );
        lemma_rreachable_found(es, start, max_depth, d, es[j].target_id, (k - 1) as nat);
        let w = choose|w: int|
            0 <= w < d.len() && (#[trigger] d[w]).0 == es[j].target_id && d[w].1 <= k - 1;
        assert(d[w].1 < max_depth);
        assert(rdisc_within(d, es[j].source_id, d[w].1 + 1));
        let v = choose|v: int|
            0 <= v < d.len() && (#[trigger] d[v]).0 == es[j].source_id && d[v].1 <= d[w].1 + 1;
        assert(d[v].0 == id && d[v].1 <= k as int);
    }
}

/// Reverse reachability: exactly the nodes, other than the argument, that
/// reach it through impact-bearing edges within the depth bound, each with
/// its name and its distance — the least number of hops.
#[verifier::loop_isolation(false)]
#[verifier::rlimit(100)]
#[verifier::spinoff_prover]
pub fn impact_analysis(
    stores: &TransactionManager,
    node_id: u128,
    max_depth: usize,
) -> (r: OnyxResult<Vec<(u128, String, usize)>>)
    requires
        stores.wf(),
    ensures
        match r {
            Ok(affected) => {
                let ns = stores.graph_store.nodes_seq();
                let es = stores.graph_store.edges_seq();
                &&& (forall|i: int, j: int|
                    0 <= i < j < affected@.len() ==> (#[trigger] affected@[i]).0 != (
                    #[trigger] affected@[j]).0)
                &&& (forall|i: int|
                    0 <= i < affected@.len() ==> has_node(ns, (#[trigger] affected@[i]).0)
                        && affected@[i].0 != node_id && 1 <= affected@[i].2 <= max_depth
                        && affected@[i].1 == node_with(ns, affected@[i].0).name)
                &&& (forall|i: int|
                    0 <= i < affected@.len() ==> impact_reaches(
                        es,
                        node_id,
                        (#[trigger] affected@[i]).0,
                        affected@[i].2 as nat,
                    ))
                &&& (forall|id: u128, k: nat|
                    k <= max_depth && #[trigger] impact_reaches(es, node_id, id, k) && id
                        != node_id ==> exists|i: int|
                        0 <= i < affected@.len() && (#[trigger] affected@[i]).0 == id
                            && affected@[i].2 <= k)
            },
            Err(_) => false,
        },
{
    let ghost ns = stores.graph_store.nodes_seq();
    let ghost es = stores.graph_store.edges_seq();
    let filter: Vec<EdgeType> = impact_edges();
    let mut affected: Vec<(u128, String, usize)> = Vec::new();
    let mut disc: Vec<(u128, usize)> = Vec::new();
    disc.push((node_id, 0));
    let mut qi: usize = 0;
    while qi < disc.len()
        invariant
            0 <= qi <= disc@.len(),
            disc@.len() >= 1,
            disc@[0] == (node_id, 0usize),
            forall|i: int, j: int| 0 <= i < j < disc@.len() ==> disc@[i].0 != disc@[j].0,
            forall|i: int| 1 <= i < disc@.len() ==> has_node(ns, (#[trigger] disc@[i]).0),
            forall|i: int| 0 <= i < disc@.len() ==> (#[trigger] disc@[i]).1 <= max_depth,
            forall|i: int, j: int| 0 <= i < j < disc@.len() ==> disc@[i].1 <= disc@[j].1,
            qi < disc@.len() ==> disc@[disc@.len() - 1].1 <= disc@[qi as int].1 + 1,
            forall|i: int| 1 <= i < disc@.len() ==> #[trigger] rreached_from(es, disc@, i),
            forall|i: int, kk: int|
                0 <= i < qi && 0 <= kk < es.len() && (#[trigger] disc@[i]).1 < max_depth && (
                #[trigger] es[kk]).target_id == disc@[i].0 && impact_edge_types().contains(
                    es[kk].edge_type,
                ) ==> rdisc_within(disc@, es[kk].source_id, disc@[i].1 + 1),
            affected@.len() + 1 == disc@.len(),
            forall|i: int|
                0 <= i < affected@.len() ==> (#[trigger] affected@[i]).0 == disc@[i + 1].0
                    && affected@[i].2 == disc@[i + 1].1 && affected@[i].1 == node_with(
                    ns,
                    affected@[i].0,
                ).name,
        decreases ns.len() + 1 - qi,
    {
        proof {
            if disc@.len() > ns.len() + 1 {
                let tail = disc@.subrange(1, disc@.len() as int);
                assert forall|i: int, j: int|
                    0 <= i < j < tail.len() implies tail[i] != tail[j] by {
                    assert(tail[i] == disc@[i + 1]);
                    assert(tail[j] == disc@[j + 1]);
                    assert(disc@[i + 1].0 != disc@[j + 1].0);
                }
                crate::graph::lemma_distinct_ids_bound(
                    ns,
                    Seq::new(tail.len(), |i: int| tail[i].0),
                );
            }
        }
        let current: u128 = disc[qi].0;
        let depth: usize = disc[qi].1;
        if depth < max_depth {
            let inbound = stores.graph_store.get_inbound(current, Some(&filter));
            proof {
                assert(filter@ == impact_edge_types());
            }
            let mut k: usize = 0;
            while k < inbound.len()
                invariant
                    0 <= k <= inbound@.len(),
                    qi < disc@.len(),
                    disc@[qi as int] == (current, depth),
                    depth < max_depth,
                    disc@.len() >= 1,
                    disc@[0] == (node_id, 0usize),
                    forall|i: int, j: int| 0 <= i < j < disc@.len() ==> disc@[i].0 != disc@[j].0,
                    forall|i: int| 1 <= i < disc@.len() ==> has_node(ns, (#[trigger] disc@[i]).0),
                    forall|i: int| 0 <= i < disc@.len() ==> (#[trigger] disc@[i]).1 <= max_depth,
                    forall|i: int, j: int| 0 <= i < j < disc@.len() ==> disc@[i].1 <= disc@[j].1,
                    disc@[disc@.len() - 1].1 <= depth + 1,
                    forall|i: int| 1 <= i < disc@.len() ==> #[trigger] rreached_from(es, disc@, i),
                    forall|i: int, kk: int|
                        0 <= i < qi && 0 <= kk < es.len() && (#[trigger] disc@[i]).1 < max_depth
                            && (#[trigger] es[kk]).target_id == disc@[i].0
                            && impact_edge_types().contains(es[kk].edge_type) ==> rdisc_within(
                            disc@,
                            es[kk].source_id,
                            disc@[i].1 + 1,
                        ),
                    forall|kk: int|
                        0 <= kk < es.len() && (#[trigger] es[kk]).target_id == current
                            && impact_edge_types().contains(es[kk].edge_type) && (exists|w: int|
                            0 <= w < k && *(#[trigger] inbound@[w]).0 == es[kk]) ==> rdisc_within(
                            disc@,
                            es[kk].source_id,
                            depth + 1,
                        ),
                    forall|i: int|
                        0 <= i < inbound@.len() ==> es.contains(*(#[trigger] inbound@[i]).0)
                            && inbound@[i].0.target_id == current && inbound@[i].0.source_id
                            == inbound@[i].1.id && *inbound@[i].1 == node_with(
                            ns,
                            inbound@[i].0.source_id,
                        ) && impact_edge_types().contains(inbound@[i].0.edge_type),
                    affected@.len() + 1 == disc@.len(),
                    forall|i: int|
                        0 <= i < affected@.len() ==> (#[trigger] affected@[i]).0 == disc@[i + 1].0
                            && affected@[i].2 == disc@[i + 1].1 && affected@[i].1 == node_with(
                            ns,
                            affected@[i].0,
                        ).name,
                decreases inbound@.len() - k,
            {
                let ghost prev = disc@;
                let source_node = inbound[k].1;
                if !crate::graph::ids_contain_pairs(&disc, source_node.id) {
                    disc.push((source_node.id, depth + 1));
                    affected.push((source_node.id, source_node.name.clone(), depth + 1));
                    proof {
                        let d2 = disc@;
                        assert(has_node(ns, source_node.id)) by {
                            let x = choose|x: int|
                                0 <= x < ns.len() && ns[x].id == inbound@[k as int].0.source_id;
                            assert(ns[x].id == source_node.id);
                        }
                        assert(node_with(ns, source_node.id) == *inbound@[k as int].1) by {
                            assert(inbound@[k as int].0.source_id == source_node.id);
                        }
                        assert forall|i: int|
                            1 <= i < d2.len() implies #[trigger] rreached_from(es, d2, i) by {
                            if i < prev.len() {
                                assert(rreached_from(es, prev, i));
                                let (j, kk): (int, int) = choose|j: int, kk: int|
                                    #![trigger prev[j], es[kk]]
                                    0 <= j < i && 0 <= kk < es.len() && prev[i].1 == prev[j].1 + 1
                                        && es[kk].target_id == prev[j].0 && es[kk].source_id
                                        == prev[i].0 && impact_edge_types().contains(
                                        es[kk].edge_type,
                                    );
                                assert(d2[j] == prev[j]);
                                assert(d2[i] == prev[i]);
                            } else {
                                let e = *inbound@[k as int].0;
                                let w = choose|w: int| 0 <= w < es.len() && es[w] == e;
                                assert(d2[qi as int] == (current, depth));
                                assert(es[w].target_id == d2[qi as int].0);
                                assert(es[w].source_id == d2[i].0);
                            }
                        }
                        assert forall|i: int, kk: int|
                            0 <= i < qi && 0 <= kk < es.len() && (#[trigger] d2[i]).1 < max_depth
                                && (#[trigger] es[kk]).target_id == d2[i].0
                                && impact_edge_types().contains(es[kk].edge_type) implies rdisc_within(
                            d2,
                            es[kk].source_id,
                            d2[i].1 + 1,
                        ) by {
                            assert(d2[i] == prev[i]);
                            assert(rdisc_within(prev, es[kk].source_id, prev[i].1 + 1));
                            let w = choose|w: int|
                                0 <= w < prev.len() && (#[trigger] prev[w]).0 == es[kk].source_id
                                    && prev[w].1 <= prev[i].1 + 1;
                            assert(d2[w].0 == es[kk].source_id && d2[w].1 <= d2[i].1 + 1);
                        }
                        assert forall|kk: int|
                            0 <= kk < es.len() && (#[trigger] es[kk]).target_id == current
                                && impact_edge_types().contains(es[kk].edge_type) && (exists|
                                w: int,
                            |
                                0 <= w < k + 1 && *(#[trigger] inbound@[w]).0
                                    == es[kk]) implies rdisc_within(
                            d2,
                            es[kk].source_id,
                            depth + 1,
                        ) by {
                            let w = choose|w: int|
                                0 <= w < k + 1 && *(#[trigger] inbound@[w]).0 == es[kk];
                            if w < k {
                                assert(rdisc_within(prev, es[kk].source_id, depth + 1));
                                let v = choose|v: int|
                                    0 <= v < prev.len() && (#[trigger] prev[v]).0
                                        == es[kk].source_id && prev[v].1 <= depth + 1;
                                assert(d2[v].0 == es[kk].source_id && d2[v].1 <= depth + 1);
                            } else {
                                assert(es[kk].source_id == source_node.id);
                                assert(d2[d2.len() - 1].0 == source_node.id && d2[d2.len() - 1].1
                                    <= depth + 1);
                            }
                        }
                    }
                } else {
                    proof {
                        assert forall|kk: int|
                            0 <= kk < es.len() && (#[trigger] es[kk]).target_id == current
                                && impact_edge_types().contains(es[kk].edge_type) && (exists|
                                w: int,
                            |
                                0 <= w < k + 1 && *(#[trigger] inbound@[w]).0
                                    == es[kk]) implies rdisc_within(
                            disc@,
                            es[kk].source_id,
                            depth + 1,
                        ) by {
                            let w = choose|w: int|
                                0 <= w < k + 1 && *(#[trigger] inbound@[w]).0 == es[kk];
                            if w == k {
                                assert(es[kk].source_id == source_node.id);
                                let v = choose|v: int|
                                    0 <= v < disc@.len() && (#[trigger] disc@[v]).0
                                        == source_node.id;
                                assert(disc@[v].1 <= disc@[disc@.len() - 1].1) by {
                                    if v < disc@.len() - 1 {
                                        assert(disc@[v].1 <= disc@[disc@.len() - 1].1);
                                    }
                                }
                            }
                        }
                    }
                }
                k = k + 1;
            }
            proof {
                assert forall|i: int, kk: int|
                    0 <= i < qi + 1 && 0 <= kk < es.len() && (#[trigger] disc@[i]).1 < max_depth
                        && (#[trigger] es[kk]).target_id == disc@[i].0
                        && impact_edge_types().contains(es[kk].edge_type) implies rdisc_within(
                    disc@,
                    es[kk].source_id,
                    disc@[i].1 + 1,
                ) by {
                    if i == qi {
                        assert(exists|w: int|
                            0 <= w < inbound@.len() && *(#[trigger] inbound@[w]).0 == es[kk]) by {
                            assert(passes_filter(filter_view(Some(&filter)), es[kk].edge_type));
                        }
                    }
                }
            }
        } else {
            proof {
                assert forall|i: int, kk: int|
                    0 <= i < qi + 1 && 0 <= kk < es.len() && (#[trigger] disc@[i]).1 < max_depth
                        && (#[trigger] es[kk]).target_id == disc@[i].0
                        && impact_edge_types().contains(es[kk].edge_type) implies rdisc_within(
                    disc@,
                    es[kk].source_id,
                    disc@[i].1 + 1,
                ) by {
                    assert(i < qi);
                }
            }
        }
        qi = qi + 1;
    }
    proof {
        assert forall|i: int| 0 <= i < affected@.len() implies impact_reaches(
            es,
            node_id,
            (#[trigger] affected@[i]).0,
            affected@[i].2 as nat,
        ) by {
            lemma_rsound_entry_reaches(es, node_id, disc@, i + 1);
        }
        assert forall|id: u128, k: nat|
            k <= max_depth && #[trigger] impact_reaches(es, node_id, id, k) && id
                != node_id implies exists|i: int|
            0 <= i < affected@.len() && (#[trigger] affected@[i]).0 == id && affected@[i].2
                <= k by {
            lemma_rreachable_found(es, node_id, max_depth, disc@, id, k);
            let w = choose|w: int|
                0 <= w < disc@.len() && (#[trigger] disc@[w]).0 == id && disc@[w].1 <= k as int;
            assert(w >= 1);
            assert(affected@[w - 1].0 == id && affected@[w - 1].2 <= k as int);
        }
    }
    Ok(affected)
}

/// Edge `k` is a `TestsOf` edge into `target`.
pub open spec fn tests_edge(es: Seq<crate::model::Edge>, target: u128, k: int) -> bool {
    0 <= k < es.len() && es[k].target_id == target && es[k].edge_type is TestsOf
}

/// Edge `k` is a `Calls` edge into `target`.
pub open spec fn calls_edge(es: Seq<crate::model::Edge>, target: u128, k: int) -> bool {
    0 <= k < es.len() && es[k].target_id == target && es[k].edge_type is Calls
}

/// Node `id` tests `target` directly: some `TestsOf` edge runs from it to
/// the target.
pub open spec fn directly_tests(es: Seq<crate::model::Edge>, target: u128, id: u128) -> bool {
    exists|k: int| #[trigger] tests_edge(es, target, k) && es[k].source_id == id
}

/// Node `id` tests a direct caller of `target`.
pub open spec fn tests_a_caller(es: Seq<crate::model::Edge>, target: u128, id: u128) -> bool {
    exists|k: int, t: int|
        #![trigger es[k], es[t]]
        calls_edge(es, target, k) && tests_edge(es, es[k].source_id, t) && es[t].source_id == id
}

/// The direct tests of a node: exactly the sources of its inbound
/// `TestsOf` edges, each once, at the full score and depth one.
#[verifier::loop_isolation(false)]
#[verifier::rlimit(100)]
#[verifier::spinoff_prover]
fn direct_covering_tests(stores: &TransactionManager, node_id: u128) -> (tests: Vec<
    QueryResultItem,
>)
    requires
        stores.wf(),
    ensures
        covering_phase_one(
            stores.graph_store.nodes_seq(),
            stores.graph_store.edges_seq(),
            node_id,
            tests@,
        ),
{
    let ghost ns = stores.graph_store.nodes_seq();
    let ghost es = stores.graph_store.edges_seq();
    let mut tests: Vec<QueryResultItem> = Vec::new();
    let mut tests_filter: Vec<EdgeType> = Vec::new();
    tests_filter.push(EdgeType::TestsOf);
    proof {
        assert(tests_filter@ =~= seq![EdgeType::TestsOf]);
    }
    let direct = stores.graph_store.get_inbound(node_id, Some(&tests_filter));
    let mut k: usize = 0;
    while k < direct.len()
        invariant
            0 <= k <= direct@.len(),
            forall|i: int|
                0 <= i < direct@.len() ==> es.contains(*(#[trigger] direct@[i]).0)
                    && direct@[i].0.target_id == node_id && direct@[i].0.source_id
                    == direct@[i].1.id && *direct@[i].1 == node_with(ns, direct@[i].0.source_id)
                    && direct@[i].0.edge_type is TestsOf,
            forall|i: int, j: int|
                0 <= i < j < tests@.len() ==> (#[trigger] tests@[i]).node_id != (
                #[trigger] tests@[j]).node_id,
            forall|i: int| 0 <= i < tests@.len() ==> direct_item(ns, es, node_id, #[trigger] tests@[i]),
            forall|w: int|
                0 <= w < k ==> exists|i: int|
                    0 <= i < tests@.len() && (#[trigger] tests@[i]).node_id == (
                    #[trigger] direct@[w]).1.id,
        decreases direct@.len() - k,
    {
        let ghost tests0 = tests@;
        let test_node = direct[k].1;
        if !items_contain(&tests, test_node.id) {
            let mut path: Vec<EdgeType> = Vec::new();
            path.push(EdgeType::TestsOf);
            tests.push(
                QueryResultItem {
                    node_id: test_node.id,
                    name: test_node.name.clone(),
                    content: test_node.content.clone(),
                    source: ResultSource::GraphTraversal,
                    score: SCORE_FULL,
                    depth: 1,
                    edge_path: path,
                    versions: Vec::new(),
                },
            );
            proof {
                let e = *direct@[k as int].0;
                let w = choose|w: int| 0 <= w < es.len() && es[w] == e;
                assert(tests_edge(es, node_id, w));
                assert(directly_tests(es, node_id, test_node.id)) by {
                    assert(tests_edge(es, node_id, w) && es[w].source_id == test_node.id);
                }
                assert(has_node(ns, direct@[k as int].1.id)) by {
                    let x = choose|x: int|
                        0 <= x < ns.len() && ns[x].id == direct@[k as int].0.source_id;
                    assert(ns[x].id == direct@[k as int].1.id);
                }
                assert(node_with(ns, test_node.id) == *direct@[k as int].1) by {
                    assert(direct@[k as int].0.source_id == test_node.id);
                }
                assert(direct_item(ns, es, node_id, tests@[tests@.len() - 1]));
            }
        }
        proof {
            assert(exists|i: int|
                0 <= i < tests@.len() && (#[trigger] tests@[i]).node_id == direct@[k as int].1.id)
                by {
                if tests@.len() > tests0.len() {
                    assert(tests@[tests@.len() - 1].node_id == direct@[k as int].1.id);
                }
            }
            assert forall|w: int|
                0 <= w < k + 1 implies exists|i: int|
                0 <= i < tests@.len() && (#[trigger] tests@[i]).node_id == (
                #[trigger] direct@[w]).1.id by {
                if w < k {
                    let i = choose|i: int|
                        0 <= i < tests0.len() && (#[trigger] tests0[i]).node_id == direct@[w].1.id;
                    assert(tests@[i].node_id == direct@[w].1.id);
                }
            }
        }
        k = k + 1;
    }
    proof {
        assert forall|id: u128| #[trigger] directly_tests(es, node_id, id) implies exists|i: int|
            0 <= i < tests@.len() && (#[trigger] tests@[i]).node_id == id && tests@[i].depth
                == 1 by {
            let kk = choose|kk: int| #[trigger] tests_edge(es, node_id, kk) && es[kk].source_id == id;
            assert(es[kk].target_id == node_id && es[kk].edge_type is TestsOf);
            assert(passes_filter(filter_view(Some(&tests_filter)), es[kk].edge_type)) by {
                assert(tests_filter@[0] == EdgeType::TestsOf);
                assert(tests_filter@.contains(es[kk].edge_type));
            }
            let w = choose|w: int| 0 <= w < direct@.len() && *(#[trigger] direct@[w]).0 == es[kk];
            assert(direct@[w].1.id == id);
            let i = choose|i: int|
                0 <= i < tests@.len() && (#[trigger] tests@[i]).node_id == direct@[w].1.id;
            assert(tests@[i].depth == 1);
        }
    }
    tests
}

/// A direct-test result item: a stored node that directly tests the
/// target, reported at the full score and depth one.
pub open spec fn direct_item(
    ns: Seq<crate::model::Node>,
    es: Seq<crate::model::Edge>,
    node_id: u128,
    it: QueryResultItem,
) -> bool {
    &&& has_node(ns, it.node_id)
    &&& it.name == node_with(ns, it.node_id).name
    &&& it.content == node_with(ns, it.node_id).content
    &&& it.source is GraphTraversal
    &&& it.versions@.len() == 0
    &&& it.score == SCORE_FULL
    &&& it.depth == 1
    &&& it.edge_path@ =~= seq![EdgeType::TestsOf]
    &&& directly_tests(es, node_id, it.node_id)
}

/// A caller-test result item: a stored node that tests a direct caller of
/// the target without testing the target itself, at score seven hundred
/// and depth two.
pub open spec fn caller_item(
    ns: Seq<crate::model::Node>,
    es: Seq<crate::model::Edge>,
    node_id: u128,
    it: QueryResultItem,
) -> bool {
    &&& has_node(ns, it.node_id)
    &&& it.name == node_with(ns, it.node_id).name
    &&& it.content == node_with(ns, it.node_id).content
    &&& it.source is GraphTraversal
    &&& it.versions@.len() == 0
    &&& it.score == 700
    &&& it.depth == 2
    &&& it.edge_path@ =~= seq![EdgeType::Calls, EdgeType::TestsOf]
    &&& tests_a_caller(es, node_id, it.node_id)
    &&& !directly_tests(es, node_id, it.node_id)
}

/// What the direct phase leaves behind: distinct direct-test items
/// covering every direct tester.
pub open spec fn covering_phase_one(
    ns: Seq<crate::model::Node>,
    es: Seq<crate::model::Edge>,
    node_id: u128,
    tests: Seq<QueryResultItem>,
) -> bool {
    &&& (forall|i: int, j: int|
        0 <= i < j < tests.len() ==> (#[trigger] tests[i]).node_id != (
        #[trigger] tests[j]).node_id)
    &&& (forall|i: int| 0 <= i < tests.len() ==> direct_item(ns, es, node_id, #[trigger] tests[i]))
    &&& (forall|id: u128|
        #[trigger] directly_tests(es, node_id, id) ==> exists|i: int|
            0 <= i < tests.len() && (#[trigger] tests[i]).node_id == id && tests[i].depth == 1)
}

/// The full result: every item is a direct test or a caller test, direct
/// ones first, each test node once, covering every direct tester and every
/// caller tester.
pub open spec fn covering_full(
    ns: Seq<crate::model::Node>,
    es: Seq<crate::model::Edge>,
    node_id: u128,
    tests: Seq<QueryResultItem>,
) -> bool {
    &&& (forall|i: int, j: int|
        0 <= i < j < tests.len() ==> (#[trigger] tests[i]).node_id != (
        #[trigger] tests[j]).node_id)
    &&& (forall|i: int, j: int|
        0 <= i < j < tests.len() ==> (#[trigger] tests[i]).depth <= (#[trigger] tests[j]).depth)
    &&& (forall|i: int|
        0 <= i < tests.len() ==> direct_item(ns, es, node_id, #[trigger] tests[i]) || caller_item(
            ns,
            es,
            node_id,
            tests[i],
        ))
    &&& (forall|id: u128|
        #[trigger] directly_tests(es, node_id, id) ==> exists|i: int|
            0 <= i < tests.len() && (#[trigger] tests[i]).node_id == id && tests[i].depth == 1)
    &&& (forall|id: u128|
        #[trigger] tests_a_caller(es, node_id, id) ==> exists|i: int|
            0 <= i < tests.len() && (#[trigger] tests[i]).node_id == id)
}

/// Extends a direct-phase result with the tests of the target's direct
/// callers.
#[verifier::loop_isolation(false)]
#[verifier::rlimit(100)]
#[verifier::spinoff_prover]
fn caller_covering_tests(
    stores: &TransactionManager,
    node_id: u128,
    tests: &mut Vec<QueryResultItem>,
)
    requires
        stores.wf(),
        covering_phase_one(
            stores.graph_store.nodes_seq(),
            stores.graph_store.edges_seq(),
            node_id,
            old(tests)@,
        ),
    ensures
        final(tests)@.len() >= old(tests)@.len(),
        final(tests)@.subrange(0, old(tests)@.len() as int) == old(tests)@,
        covering_full(
            stores.graph_store.nodes_seq(),
            stores.graph_store.edges_seq(),
            node_id,
            final(tests)@,
        ),
{
    let ghost ns = stores.graph_store.nodes_seq();
    let ghost es = stores.graph_store.edges_seq();
    let ghost base = tests@;
    let mut tests_filter: Vec<EdgeType> = Vec::new();
    tests_filter.push(EdgeType::TestsOf);
    let mut calls_filter: Vec<EdgeType> = Vec::new();
    calls_filter.push(EdgeType::Calls);
    proof {
        assert(tests_filter@ =~= seq![EdgeType::TestsOf]);
        assert(calls_filter@ =~= seq![EdgeType::Calls]);
    }
    proof {
        assert(tests@.subrange(0, base.len() as int) =~= base);
        assert forall|i: int| 0 <= i < base.len() implies direct_item(
            ns,
            es,
            node_id,
            #[trigger] tests@[i],
        ) by {
            assert(tests@[i] == base[i]);
        }
    }
    let callers = stores.graph_store.get_inbound(node_id, Some(&calls_filter));
    let mut c: usize = 0;
    while c < callers.len()
        invariant
            0 <= c <= callers@.len(),
            forall|i: int|
                0 <= i < callers@.len() ==> es.contains(*(#[trigger] callers@[i]).0)
                    && callers@[i].0.target_id == node_id && callers@[i].0.source_id
                    == callers@[i].1.id && callers@[i].0.edge_type is Calls,
            tests@.len() >= base.len(),
            tests@.subrange(0, base.len() as int) == base,
            forall|i: int, j: int|
                0 <= i < j < tests@.len() ==> (#[trigger] tests@[i]).node_id != (
                #[trigger] tests@[j]).node_id,
            forall|i: int|
                0 <= i < base.len() ==> direct_item(ns, es, node_id, #[trigger] tests@[i]),
            forall|i: int|
                base.len() <= i < tests@.len() ==> caller_item(ns, es, node_id, #[trigger] tests@[i]),
            forall|cc: int, tt: int|
                0 <= cc < c && #[trigger] tests_edge(es, (#[trigger] callers@[cc]).1.id, tt)
                    ==> exists|i: int|
                    0 <= i < tests@.len() && (#[trigger] tests@[i]).node_id == es[tt].source_id,
        decreases callers@.len() - c,
    {
        let caller_id: u128 = callers[c].1.id;
        let caller_tests = stores.graph_store.get_inbound(caller_id, Some(&tests_filter));
        let mut t: usize = 0;
        while t < caller_tests.len()
            invariant
                0 <= t <= caller_tests@.len(),
                c < callers@.len(),
                callers@[c as int].1.id == caller_id,
                es.contains(*callers@[c as int].0),
                callers@[c as int].0.target_id == node_id,
                callers@[c as int].0.source_id == caller_id,
                callers@[c as int].0.edge_type is Calls,
                forall|i: int|
                    0 <= i < caller_tests@.len() ==> es.contains(*(#[trigger] caller_tests@[i]).0)
                        && caller_tests@[i].0.target_id == caller_id && caller_tests@[i].0.source_id
                        == caller_tests@[i].1.id && *caller_tests@[i].1 == node_with(
                        ns,
                        caller_tests@[i].0.source_id,
                    ) && caller_tests@[i].0.edge_type is TestsOf,
                forall|i: int|
                    0 <= i < callers@.len() ==> es.contains(*(#[trigger] callers@[i]).0)
                        && callers@[i].0.target_id == node_id && callers@[i].0.source_id
                        == callers@[i].1.id && callers@[i].0.edge_type is Calls,
                tests@.len() >= base.len(),
                tests@.subrange(0, base.len() as int) == base,
                forall|i: int, j: int|
                    0 <= i < j < tests@.len() ==> (#[trigger] tests@[i]).node_id != (
                    #[trigger] tests@[j]).node_id,
                forall|i: int|
                    0 <= i < base.len() ==> direct_item(ns, es, node_id, #[trigger] tests@[i]),
                forall|i: int|
                    base.len() <= i < tests@.len() ==> caller_item(
                        ns,
                        es,
                        node_id,
                        #[trigger] tests@[i],
                    ),
                forall|cc: int, tt: int|
                    0 <= cc < c && #[trigger] tests_edge(es, (#[trigger] callers@[cc]).1.id, tt)
                        ==> exists|i: int|
                        0 <= i < tests@.len() && (#[trigger] tests@[i]).node_id
                            == es[tt].source_id,
                forall|w: int|
                    0 <= w < t ==> exists|i: int|
                        0 <= i < tests@.len() && (#[trigger] tests@[i]).node_id == (
                        #[trigger] caller_tests@[w]).1.id,
            decreases caller_tests@.len() - t,
        {
            let ghost tests0 = tests@;
            let test_node = caller_tests[t].1;
            if !items_contain(tests, test_node.id) {
                let mut path: Vec<EdgeType> = Vec::new();
                path.push(EdgeType::Calls);
                path.push(EdgeType::TestsOf);
                tests.push(
                    QueryResultItem {
                        node_id: test_node.id,
                        name: test_node.name.clone(),
                        content: test_node.content.clone(),
                        source: ResultSource::GraphTraversal,
                        score: 700,
                        depth: 2,
                        edge_path: path,
                        versions: Vec::new(),
                    },
                );
                proof {
                    assert(tests@.subrange(0, base.len() as int) =~= base);
                    let ce = *callers@[c as int].0;
                    let wk = choose|w: int| 0 <= w < es.len() && es[w] == ce;
                    let te = *caller_tests@[t as int].0;
                    let wt = choose|w: int| 0 <= w < es.len() && es[w] == te;
                    assert(calls_edge(es, node_id, wk));
                    assert(es[wk].source_id == caller_id);
                    assert(tests_edge(es, es[wk].source_id, wt));
                    assert(es[wt].source_id == test_node.id);
                    assert(tests_a_caller(es, node_id, test_node.id));
                    assert(has_node(ns, test_node.id)) by {
                        let x = choose|x: int|
                            0 <= x < ns.len() && ns[x].id == caller_tests@[t as int].0.source_id;
                        assert(ns[x].id == test_node.id);
                    }
                    assert(node_with(ns, test_node.id) == *caller_tests@[t as int].1) by {
                        assert(caller_tests@[t as int].0.source_id == test_node.id);
                    }
                    assert(!directly_tests(es, node_id, test_node.id)) by {
                        if directly_tests(es, node_id, test_node.id) {
                            let i = choose|i: int|
                                0 <= i < base.len() && (#[trigger] base[i]).node_id
                                    == test_node.id && base[i].depth == 1;
                            assert(tests0[i] == base[i]) by {
                                assert(tests0.subrange(0, base.len() as int)[i] == tests0[i]);
                            }
                            assert(tests0[i].node_id == test_node.id);
                        }
                    }
                    assert(caller_item(ns, es, node_id, tests@[tests@.len() - 1]));
                }
            }
            proof {
                assert(exists|i: int|
                    0 <= i < tests@.len() && (#[trigger] tests@[i]).node_id
                        == caller_tests@[t as int].1.id) by {
                    if tests@.len() > tests0.len() {
                        assert(tests@[tests@.len() - 1].node_id == caller_tests@[t as int].1.id);
                    }
                }
                assert forall|w: int|
                    0 <= w < t + 1 implies exists|i: int|
                    0 <= i < tests@.len() && (#[trigger] tests@[i]).node_id == (
                    #[trigger] caller_tests@[w]).1.id by {
                    if w < t {
                        let i = choose|i: int|
                            0 <= i < tests0.len() && (#[trigger] tests0[i]).node_id
                                == caller_tests@[w].1.id;
                        assert(tests@[i].node_id == caller_tests@[w].1.id);
                    }
                }
                assert forall|cc: int, tt: int|
                    0 <= cc < c && #[trigger] tests_edge(
                        es,
                        (#[trigger] callers@[cc]).1.id,
                        tt,
                    ) implies exists|i: int|
                    0 <= i < tests@.len() && (#[trigger] tests@[i]).node_id
                        == es[tt].source_id by {
                    let i = choose|i: int|
                        0 <= i < tests0.len() && (#[trigger] tests0[i]).node_id
                            == es[tt].source_id;
                    assert(tests@[i].node_id == es[tt].source_id);
                }
            }
            t = t + 1;
        }
        proof {
            assert forall|cc: int, tt: int|
                0 <= cc < c + 1 && #[trigger] tests_edge(
                    es,
                    (#[trigger] callers@[cc]).1.id,
                    tt,
                ) implies exists|i: int|
                0 <= i < tests@.len() && (#[trigger] tests@[i]).node_id == es[tt].source_id by {
                if cc == c {
                    assert(es[tt].target_id == caller_id && es[tt].edge_type is TestsOf);
                    assert(passes_filter(filter_view(Some(&tests_filter)), es[tt].edge_type)) by {
                        assert(tests_filter@[0] == EdgeType::TestsOf);
                        assert(tests_filter@.contains(es[tt].edge_type));
                    }
                    let w = choose|w: int|
                        0 <= w < caller_tests@.len() && *(#[trigger] caller_tests@[w]).0 == es[tt];
                    assert(caller_tests@[w].1.id == es[tt].source_id);
                    let i = choose|i: int|
                        0 <= i < tests@.len() && (#[trigger] tests@[i]).node_id
                            == caller_tests@[w].1.id;
                }
            }
        }
        c = c + 1;
    }
    proof {
        assert forall|id: u128| #[trigger] tests_a_caller(es, node_id, id) implies exists|i: int|
            0 <= i < tests@.len() && (#[trigger] tests@[i]).node_id == id by {
            let (kk, tt): (int, int) = choose|kk: int, tt: int|
                #![trigger es[kk], es[tt]]
                calls_edge(es, node_id, kk) && tests_edge(es, es[kk].source_id, tt)
                    && es[tt].source_id == id;
            assert(es[kk].target_id == node_id && es[kk].edge_type is Calls);
            assert(passes_filter(filter_view(Some(&calls_filter)), es[kk].edge_type)) by {
                assert(calls_filter@[0] == EdgeType::Calls);
                assert(calls_filter@.contains(es[kk].edge_type));
            }
            let w = choose|w: int| 0 <= w < callers@.len() && *(#[trigger] callers@[w]).0 == es[kk];
            assert(callers@[w].1.id == es[kk].source_id);
            assert(tests_edge(es, callers@[w].1.id, tt));
        }
        assert(tests@.subrange(0, base.len() as int) =~= base);
        assert forall|id: u128| #[trigger] directly_tests(es, node_id, id) implies exists|i: int|
            0 <= i < tests@.len() && (#[trigger] tests@[i]).node_id == id && tests@[i].depth
                == 1 by {
            let i = choose|i: int|
                0 <= i < base.len() && (#[trigger] base[i]).node_id == id && base[i].depth == 1;
            assert(tests@[i] == base[i]);
        }
        assert forall|i: int, j: int|
            0 <= i < j < tests@.len() implies (#[trigger] tests@[i]).depth <= (
        #[trigger] tests@[j]).depth by {
            if i < base.len() {
                assert(tests@[i] == base[i]);
                assert(tests@[i].depth == 1);
                if j < base.len() {
                    assert(tests@[j] == base[j]);
                }
            } else {
                assert(caller_item(ns, es, node_id, tests@[i]));
                assert(caller_item(ns, es, node_id, tests@[j]));
            }
        }
    }
}

/// The tests covering a node: exactly the nodes with a `TestsOf` edge into
/// it, at the full score and depth one, followed — when the bound allows
/// more than one hop — by the nodes testing one of its direct callers, at
/// score seven hundred and depth two, each test node at most once with the
/// direct entry winning.
#[verifier::spinoff_prover]
pub fn find_covering_tests(
    stores: &TransactionManager,
    node_id: u128,
    max_depth: usize,
) -> (r: OnyxResult<Vec<QueryResultItem>>)
    requires
        stores.wf(),
    ensures
        r is Ok,
        max_depth > 1 ==> match r {
            Ok(tests) => covering_full(
                stores.graph_store.nodes_seq(),
                stores.graph_store.edges_seq(),
                node_id,
                tests@,
            ),
            Err(_) => false,
        },
        max_depth <= 1 ==> match r {
            Ok(tests) => covering_phase_one(
                stores.graph_store.nodes_seq(),
                stores.graph_store.edges_seq(),
                node_id,
                tests@,
            ),
            Err(_) => false,
        },
{
    let ghost ns = stores.graph_store.nodes_seq();
    let ghost es = stores.graph_store.edges_seq();
    let mut tests: Vec<QueryResultItem> = direct_covering_tests(stores, node_id);
    if max_depth > 1 {
        caller_covering_tests(stores, node_id, &mut tests);
    }
    Ok(tests)
}

/// Whether an item list already mentions a node id.
fn items_contain(items: &Vec<QueryResultItem>, id: u128) -> (r: bool)
    ensures
        r == exists|i: int| 0 <= i < items@.len() && (#[trigger] items@[i]).node_id == id,
{
    let mut i: usize = 0;
    while i < items.len()
        invariant
            0 <= i <= items@.len(),
            forall|j: int| 0 <= j < i ==> (#[trigger] items@[j]).node_id != id,
        decreases items@.len() - i,
    {
        if items[i].node_id == id {
            proof {
                assert(items@[i as int].node_id == id);
            }
            return true;
        }
        i = i + 1;
    }
    false
}

} // verus!
