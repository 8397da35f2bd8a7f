//! The graph store: nodes, directed typed edges, adjacency queries,
//! breadth-first traversal and path finding.
//!
//! The store maintains two invariants: identifiers are unique within each
//! of the node and edge tables, and every edge's endpoints resolve to
//! stored nodes.  The second is the engine's no-orphan-edges guarantee:
//! it holds after every operation, so an integrity scan finds nothing.

use vstd::prelude::*;
use crate::errors::{OnyxError, OnyxResult};
use crate::model::{Edge, EdgeType, Node, NodeType};

verus! {

// ---------------------------------------------------------------------------
// Spec-level view of the tables
// ---------------------------------------------------------------------------

/// Whether some node in the sequence carries the given id.
pub open spec fn has_node(s: Seq<Node>, id: u128) -> bool {
    exists|i: int| 0 <= i < s.len() && s[i].id == id
}

/// The index of the node carrying the given id.
pub open spec fn node_idx(s: Seq<Node>, id: u128) -> int {
    choose|i: int| 0 <= i < s.len() && s[i].id == id
}

/// The node carrying the given id.
pub open spec fn node_with(s: Seq<Node>, id: u128) -> Node {
    s[node_idx(s, id)]
}

/// Whether some edge in the sequence carries the given id.
pub open spec fn has_edge(s: Seq<Edge>, id: u128) -> bool {
    exists|i: int| 0 <= i < s.len() && s[i].id == id
}

/// The index of the edge carrying the given id.
pub open spec fn edge_idx(s: Seq<Edge>, id: u128) -> int {
    choose|i: int| 0 <= i < s.len() && s[i].id == id
}

/// The edge carrying the given id.
pub open spec fn edge_with(s: Seq<Edge>, id: u128) -> Edge {
    s[edge_idx(s, id)]
}

/// No two nodes share an id.
pub open spec fn unique_node_ids(s: Seq<Node>) -> bool {
    forall|i: int, j: int| 0 <= i < j < s.len() ==> s[i].id != s[j].id
}

/// No two edges share an id.
pub open spec fn unique_edge_ids(s: Seq<Edge>) -> bool {
    forall|i: int, j: int| 0 <= i < j < s.len() ==> s[i].id != s[j].id
}

/// Every edge's endpoints resolve to stored nodes.
pub open spec fn edges_grounded(ns: Seq<Node>, es: Seq<Edge>) -> bool {
    forall|i: int|
        0 <= i < es.len() ==> has_node(ns, #[trigger] es[i].source_id) && has_node(
            ns,
            es[i].target_id,
        )
}

/// Whether an edge passes an optional edge-type filter.
pub open spec fn passes_filter(filter: Option<Seq<EdgeType>>, et: EdgeType) -> bool {
    match filter {
        None => true,
        Some(types) => types.contains(et),
    }
}

/// The view of an optional edge-type filter argument.
pub open spec fn filter_view(filter: Option<&Vec<EdgeType>>) -> Option<Seq<EdgeType>> {
    match filter {
        None => None,
        Some(v) => Some(v@),
    }
}

// ---------------------------------------------------------------------------
// Results of traversal
// ---------------------------------------------------------------------------

/// The result of a breadth-first traversal.
#[derive(Debug)]
pub struct TraversalResult {
    /// Nodes discovered, each with its depth from the start, in discovery
    /// order; the start node comes first at depth zero.
    pub nodes: Vec<(u128, usize)>,
    /// The ids of the edges followed, in the order they were examined.
    pub edges: Vec<u128>,
    /// The number of distinct nodes visited; equals `nodes.len()`.
    pub total_visited: usize,
}

/// The projection of a traversal into plain id sets.
#[derive(Debug)]
pub struct SubgraphResult {
    /// The distinct ids of the nodes in the subgraph.
    pub node_ids: Vec<u128>,
    /// The distinct ids of the edges in the subgraph.
    pub edge_ids: Vec<u128>,
}

/// The ids of a discovery list, in order.
pub open spec fn disc_ids(d: Seq<(u128, usize)>) -> Seq<u128> {
    d.map_values(|p: (u128, usize)| p.0)
}

/// Whether a discovery list mentions an id.
pub open spec fn disc_has(d: Seq<(u128, usize)>, id: u128) -> bool {
    exists|i: int| 0 <= i < d.len() && d[i].0 == id
}

/// A traversal result is sound for a store and filter when: entries carry
/// distinct ids of stored nodes within the depth bound; the first entry is
/// the start at depth zero; and every later entry is reached from an
/// earlier entry one level shallower by a stored edge that passes the
/// filter.
pub open spec fn traversal_sound(
    ns: Seq<Node>,
    es: Seq<Edge>,
    filter: Option<Seq<EdgeType>>,
    start: u128,
    max_depth: usize,
    d: Seq<(u128, usize)>,
) -> bool {
    &&& d.len() >= 1
    &&& d[0] == (start, 0usize)
    &&& (forall|i: int, j: int| 0 <= i < j < d.len() ==> d[i].0 != d[j].0)
    &&& (forall|i: int| 0 <= i < d.len() ==> has_node(ns, (#[trigger] d[i]).0))
    &&& (forall|i: int| 0 <= i < d.len() ==> (#[trigger] d[i]).1 <= max_depth)
    &&& (forall|i: int| 1 <= i < d.len() ==> #[trigger] reached_from(es, filter, d, i))
}

/// Entry `i` of a discovery list is reached from an earlier entry one
/// level shallower by a stored edge that passes the filter.
pub open spec fn reached_from(
    es: Seq<Edge>,
    filter: Option<Seq<EdgeType>>,
    d: Seq<(u128, usize)>,
    i: int,
) -> bool {
    exists|j: int, k: int|
        #![trigger d[j], es[k]]
        0 <= j < i && 0 <= k < es.len() && d[i].1 == d[j].1 + 1 && es[k].source_id == d[j].0
            && es[k].target_id == d[i].0 && passes_filter(filter, es[k].edge_type)
}

/// Whether a discovery list mentions an id at or below a depth bound.
pub open spec fn disc_has_within(d: Seq<(u128, usize)>, id: u128, bound: int) -> bool {
    exists|j: int| 0 <= j < d.len() && (#[trigger] d[j]).0 == id && d[j].1 <= bound
}

/// A traversal result is complete when every stored edge that passes the
/// filter and leaves a discovered node strictly below the depth bound leads
/// to a node discovered at most one level deeper.
pub open spec fn traversal_complete(
    es: Seq<Edge>,
    filter: Option<Seq<EdgeType>>,
    max_depth: usize,
    d: Seq<(u128, usize)>,
) -> bool {
    forall|i: int, k: int|
        0 <= i < d.len() && 0 <= k < es.len() && (#[trigger] d[i]).1 < max_depth && (
        #[trigger] es[k]).source_id == d[i].0 && passes_filter(filter, es[k].edge_type)
            ==> disc_has_within(d, es[k].target_id, d[i].1 + 1)
}

/// The id is reachable from the start within `k` hops along stored edges
/// that pass the filter.
pub open spec fn reaches(
    es: Seq<Edge>,
    filter: Option<Seq<EdgeType>>,
    start: u128,
    id: u128,
    k: nat,
) -> bool
    decreases k,
{
    id == start || (k > 0 && exists|j: int|
        0 <= j < es.len() && (#[trigger] es[j]).target_id == id && passes_filter(
            filter,
            es[j].edge_type,
        ) && reaches(es, filter, start, es[j].source_id, (k - 1) as nat))
}

/// The id is reachable from the root within the depth, following any edge
/// type, in exactly `k` allowed hops.
pub open spec fn passes_all(es: Seq<Edge>, root: u128, depth: usize, id: u128, k: nat) -> bool {
    k <= depth && reaches(es, filter_view(None), root, id, k)
}

/// The id is reachable from the root within the depth, following any edge
/// type.
pub open spec fn within_reach(es: Seq<Edge>, root: u128, depth: usize, id: u128) -> bool {
    exists|k: nat| #[trigger] passes_all(es, root, depth, id, k)
}

/// Edge `kk` carries the given id and leaves a node reachable from the root
/// in `k` hops, strictly below the depth.
pub open spec fn edge_from_reachable(
    es: Seq<Edge>,
    root: u128,
    depth: usize,
    eid: u128,
    kk: int,
    k: nat,
) -> bool {
    0 <= kk < es.len() && es[kk].id == eid && k < depth && reaches(
        es,
        filter_view(None),
        root,
        es[kk].source_id,
        k,
    )
}

/// The edge id belongs to some stored edge leaving a node reachable from
/// the root strictly below the depth.
pub open spec fn reach_followable(es: Seq<Edge>, root: u128, depth: usize, eid: u128) -> bool {
    exists|kk: int, k: nat| #[trigger] edge_from_reachable(es, root, depth, eid, kk, k)
}

/// In a sound traversal, every entry's recorded depth is the length of some
/// filtered path from the start: the entry is reachable within its depth.
pub proof fn lemma_sound_entry_reaches(
    ns: Seq<Node>,
    es: Seq<Edge>,
    filter: Option<Seq<EdgeType>>,
    start: u128,
    max_depth: usize,
    d: Seq<(u128, usize)>,
    i: int,
)
    requires
        traversal_sound(ns, es, filter, start, max_depth, d),
        0 <= i < d.len(),
    ensures
        reaches(es, filter, start, d[i].0, d[i].1 as nat),
    decreases i,
{
    if i == 0 {
        assert(d[0].0 == start);
    } else {
        assert(reached_from(es, filter, d, i));
        let (j, kk): (int, int) = choose|j: int, kk: int|
            #![trigger d[j], es[kk]]
            0 <= j < i && 0 <= kk < es.len() && d[i].1 == d[j].1 + 1 && es[kk].source_id == d[j].0
                && es[kk].target_id == d[i].0 && passes_filter(filter, es[kk].edge_type);
        lemma_sound_entry_reaches(ns, es, filter, start, max_depth, d, j);
        assert(reaches(es, filter, start, es[kk].source_id, d[j].1 as nat));
    }
}

/// In a complete traversal that starts at depth zero, every id reachable
/// within the depth bound is discovered at or below its distance.
pub proof fn lemma_reachable_is_discovered(
    es: Seq<Edge>,
    filter: Option<Seq<EdgeType>>,
    start: u128,
    max_depth: usize,
    d: Seq<(u128, usize)>,
    id: u128,
    k: nat,
)
    requires
        traversal_complete(es, filter, max_depth, d),
        d.len() >= 1,
        d[0] == (start, 0usize),
        reaches(es, filter, start, id, k),
        k <= max_depth,
    ensures
        disc_has_within(d, id, k as int),
    decreases k,
{
    if id == start {
        assert(d[0].0 == id && d[0].1 <= k as int);
    } else {
        let j = choose|j: int|
            0 <= j < es.len() && (#[trigger] es[j]).target_id == id && passes_filter(
                filter,
                es[j].edge_type,
            ) && reaches(es, filter, start, es[j].source_id, (k - 1) as nat);
        lemma_reachable_is_discovered(es, filter, start, max_depth, d, es[j].source_id, (k
            - 1) as nat);
        let w = choose|w: int|
            0 <= w < d.len() && (#[trigger] d[w]).0 == es[j].source_id && d[w].1 <= k - 1;
        assert(d[w].1 < max_depth);
        assert(disc_has_within(d, es[j].target_id, d[w].1 + 1));
        let v = choose|v: int|
            0 <= v < d.len() && (#[trigger] d[v]).0 == es[j].target_id && d[v].1 <= d[w].1 + 1;
        assert(d[v].0 == id && d[v].1 <= k as int);
    }
}

/// The followed-edge list of a traversal names, each exactly once, the
/// stored filtered edges whose source was discovered strictly below the
/// depth bound, and no others.
pub open spec fn followed_exact(
    es: Seq<Edge>,
    filter: Option<Seq<EdgeType>>,
    max_depth: usize,
    d: Seq<(u128, usize)>,
    fe: Seq<u128>,
) -> bool {
    &&& (forall|x: int, y: int| 0 <= x < y < fe.len() ==> fe[x] != fe[y])
    &&& followed_sound(es, filter, max_depth, d, fe)
    &&& covered_upto(es, filter, max_depth, d, fe, d.len() as int, 0)
}

/// An edge id that a traversal may follow: it names a stored filtered edge
/// leaving a node discovered below the bound.
pub open spec fn is_followable(
    es: Seq<Edge>,
    filter: Option<Seq<EdgeType>>,
    max_depth: usize,
    d: Seq<(u128, usize)>,
    eid: u128,
) -> bool {
    exists|i: int, kk: int|
        #![trigger d[i], es[kk]]
        0 <= i < d.len() && 0 <= kk < es.len() && es[kk].id == eid && es[kk].source_id == d[i].0
            && d[i].1 < max_depth && passes_filter(filter, es[kk].edge_type)
}

/// Every followed edge id names a stored filtered edge leaving a node
/// discovered below the bound.
pub open spec fn followed_sound(
    es: Seq<Edge>,
    filter: Option<Seq<EdgeType>>,
    max_depth: usize,
    d: Seq<(u128, usize)>,
    fe: Seq<u128>,
) -> bool {
    forall|x: int|
        0 <= x < fe.len() ==> is_followable(es, filter, max_depth, d, #[trigger] fe[x])
}

/// One provenance entry justifying one followed edge id: the discovery
/// index and edge index it was followed at, within the scan bound.
pub open spec fn prov_ok(
    es: Seq<Edge>,
    filter: Option<Seq<EdgeType>>,
    max_depth: usize,
    d: Seq<(u128, usize)>,
    fe: Seq<u128>,
    p: (int, int),
    x: int,
    qi: int,
    k: int,
) -> bool {
    &&& 0 <= p.0 < d.len()
    &&& 0 <= p.1 < es.len()
    &&& (p.0 < qi || (p.0 == qi && p.1 < k))
    &&& es[p.1].id == fe[x]
    &&& es[p.1].source_id == d[p.0].0
    &&& d[p.0].1 < max_depth
    &&& passes_filter(filter, es[p.1].edge_type)
}

/// A full scan of one node's edges advances the coverage account to the
/// next node.
pub proof fn lemma_covered_step(
    es: Seq<Edge>,
    filter: Option<Seq<EdgeType>>,
    max_depth: usize,
    d: Seq<(u128, usize)>,
    fe: Seq<u128>,
    qi: int,
)
    requires
        covered_upto(es, filter, max_depth, d, fe, qi, es.len() as int),
    ensures
        covered_upto(es, filter, max_depth, d, fe, qi + 1, 0),
{
}

/// Skipping a node at or beyond the depth bound advances the coverage
/// account without following anything.
pub proof fn lemma_covered_skip(
    es: Seq<Edge>,
    filter: Option<Seq<EdgeType>>,
    max_depth: usize,
    d: Seq<(u128, usize)>,
    fe: Seq<u128>,
    qi: int,
)
    requires
        covered_upto(es, filter, max_depth, d, fe, qi, 0),
        0 <= qi < d.len(),
        d[qi].1 >= max_depth,
    ensures
        covered_upto(es, filter, max_depth, d, fe, qi + 1, 0),
{
}

/// Every stored filtered edge leaving a node discovered below the bound and
/// examined before position `(qi, k)` has its id in the followed list.
pub open spec fn covered_upto(
    es: Seq<Edge>,
    filter: Option<Seq<EdgeType>>,
    max_depth: usize,
    d: Seq<(u128, usize)>,
    fe: Seq<u128>,
    qi: int,
    k: int,
) -> bool {
    forall|i: int, kk: int|
        0 <= i < d.len() && 0 <= kk < es.len() && (i < qi || (i == qi && kk < k)) && (
        #[trigger] es[kk]).source_id == (#[trigger] d[i]).0 && d[i].1 < max_depth && passes_filter(
            filter,
            es[kk].edge_type,
        ) ==> fe.contains(es[kk].id)
}

/// Step `i` of a path follows some stored edge.
pub open spec fn path_step(es: Seq<Edge>, p: Seq<u128>, i: int) -> bool {
    exists|k: int|
        0 <= k < es.len() && (#[trigger] es[k]).source_id == p[i] && es[k].target_id == p[i + 1]
}

/// A partial path: nonempty, no repeated node, each step along a stored edge.
pub open spec fn path_partial(es: Seq<Edge>, p: Seq<u128>) -> bool {
    &&& p.len() >= 1
    &&& (forall|i: int, j: int| 0 <= i < j < p.len() ==> p[i] != p[j])
    &&& (forall|i: int| 0 <= i < p.len() - 1 ==> #[trigger] path_step(es, p, i))
}

/// A full path extending a base: it keeps the base as a prefix, ends at the
/// target, adds at most `remaining` more edges, and is a simple stored path.
pub open spec fn path_extends(
    es: Seq<Edge>,
    base: Seq<u128>,
    target: u128,
    remaining: usize,
    p: Seq<u128>,
) -> bool {
    &&& path_partial(es, p)
    &&& p.len() >= base.len()
    &&& p.subrange(0, base.len() as int) == base
    &&& p.len() <= base.len() + remaining
    &&& p.last() == target
}

/// Whether a collected path list holds the given path.
pub open spec fn result_has(rs: Seq<Vec<u128>>, q: Seq<u128>) -> bool {
    exists|p: int| 0 <= p < rs.len() && (#[trigger] rs[p])@ == q
}

/// A complete simple path from `from` to `to` with at most `max_depth` edges.
pub open spec fn path_ok(es: Seq<Edge>, from: u128, to: u128, max_depth: usize, p: Seq<u128>) -> bool {
    &&& path_partial(es, p)
    &&& p.len() >= 1
    &&& p[0] == from
    &&& p.last() == to
    &&& p.len() <= max_depth + 1
}

// ---------------------------------------------------------------------------
// Helper lemmas
// ---------------------------------------------------------------------------

/// Filtering a sequence extended by one element appends that element
/// exactly when it passes the predicate.
pub proof fn lemma_filter_push<A>(s: Seq<A>, pred: spec_fn(A) -> bool, x: A)
    ensures
        s.push(x).filter(pred) == if pred(x) {
            s.filter(pred).push(x)
        } else {
            s.filter(pred)
        },
{
    reveal(Seq::filter);
    assert(s.push(x).drop_last() =~= s);
    assert(s.push(x).last() == x);
    if pred(x) {
        assert(s.push(x).filter(pred) =~= s.filter(pred).push(x));
    }
}

/// Every element of a filtered sequence comes from the original sequence.
pub proof fn lemma_filter_sub<A>(s: Seq<A>, pred: spec_fn(A) -> bool)
    ensures
        forall|k: int|
            0 <= k < s.filter(pred).len() ==> s.contains(#[trigger] s.filter(pred)[k]),
    decreases s.len(),
{
    reveal(Seq::filter);
    if s.len() > 0 {
        let rest = s.drop_last();
        lemma_filter_sub(rest, pred);
        assert forall|k: int|
            0 <= k < s.filter(pred).len() implies s.contains(#[trigger] s.filter(pred)[k]) by {
            if pred(s.last()) && k == s.filter(pred).len() - 1 {
                assert(s.filter(pred)[k] == s.last());
                assert(s[s.len() - 1] == s.last());
            } else {
                assert(s.filter(pred)[k] == rest.filter(pred)[k]);
                assert(rest.contains(rest.filter(pred)[k]));
                let w = choose|w: int| 0 <= w < rest.len() && rest[w] == rest.filter(pred)[k];
                assert(s[w] == rest.filter(pred)[k]);
            }
        }
    }
}

/// Filtering an edge table with distinct ids keeps the ids distinct.
pub proof fn lemma_filter_unique_edges(s: Seq<Edge>, pred: spec_fn(Edge) -> bool)
    requires
        unique_edge_ids(s),
    ensures
        unique_edge_ids(s.filter(pred)),
    decreases s.len(),
{
    reveal(Seq::filter);
    if s.len() > 0 {
        let rest = s.drop_last();
        assert(unique_edge_ids(rest)) by {
            assert(forall|i: int, j: int|
                0 <= i < j < rest.len() ==> rest[i] == s[i] && rest[j] == s[j]);
        }
        lemma_filter_unique_edges(rest, pred);
        lemma_filter_sub(rest, pred);
        if pred(s.last()) {
            let out = s.filter(pred);
            assert(out == rest.filter(pred).push(s.last()));
            assert forall|i: int, j: int| 0 <= i < j < out.len() implies out[i].id != out[j].id by {
                if j == out.len() - 1 {
                    assert(out[i] == rest.filter(pred)[i]);
                    assert(rest.contains(out[i]));
                    let w = choose|w: int| 0 <= w < rest.len() && rest[w] == out[i];
                    assert(s[w] == out[i]);
                    assert(s[w].id != s.last().id);
                } else {
                    assert(out[i] == rest.filter(pred)[i]);
                    assert(out[j] == rest.filter(pred)[j]);
                }
            }
        }
    }
}

/// A sequence of distinct ids, each found among the distinct ids of a node
/// table, is no longer than the table.
pub proof fn lemma_distinct_ids_bound(ns: Seq<Node>, ids: Seq<u128>)
    requires
        unique_node_ids(ns),
        forall|i: int, j: int| 0 <= i < j < ids.len() ==> ids[i] != ids[j],
        forall|i: int| 0 <= i < ids.len() ==> has_node(ns, #[trigger] ids[i]),
    ensures
        ids.len() <= ns.len(),
    decreases ns.len(),
{
    if ids.len() > ns.len() {
        assert(ns.len() < ids.len());
        if ns.len() == 0 {
            assert(has_node(ns, ids[0]));
            assert(false);
        } else {
            let last = ns.last();
            let rest = ns.drop_last();
            if exists|i: int| 0 <= i < ids.len() && ids[i] == last.id {
                let hit = choose|i: int| 0 <= i < ids.len() && ids[i] == last.id;
                let pruned = ids.remove(hit);
                assert forall|i: int| 0 <= i < pruned.len() implies has_node(
                    rest,
                    #[trigger] pruned[i],
                ) by {
                    let orig: int = if i < hit {
                        i
                    } else {
                        i + 1
                    };
                    assert(pruned[i] == ids[orig]);
                    assert(has_node(ns, ids[orig]));
                    let w = choose|w: int| 0 <= w < ns.len() && ns[w].id == ids[orig];
                    assert(ids[orig] != last.id);
                    assert(w < ns.len() - 1);
                    assert(rest[w].id == ids[orig]);
                }
                lemma_distinct_ids_bound(rest, pruned);
            } else {
                assert forall|i: int| 0 <= i < ids.len() implies has_node(
                    rest,
                    #[trigger] ids[i],
                ) by {
                    let w = choose|w: int| 0 <= w < ns.len() && ns[w].id == ids[i];
                    assert(ids[i] != last.id);
                    assert(w < ns.len() - 1);
                    assert(rest[w].id == ids[i]);
                }
                lemma_distinct_ids_bound(rest, ids);
            }
        }
    }
}

/// Whether an edge type passes an optional filter argument.
#[verifier::loop_isolation(false)]
pub fn passes(filter: Option<&Vec<EdgeType>>, et: EdgeType) -> (r: bool)
    ensures
        r == passes_filter(filter_view(filter), et),
{
    match filter {
        None => true,
        Some(v) => {
            let mut i: usize = 0;
            while i < v.len()
                invariant
                    0 <= i <= v@.len(),
                    forall|j: int| 0 <= j < i ==> v@[j] != et,
                decreases v@.len() - i,
            {
                if v[i] == et {
                    proof {
                        assert(v@.contains(et)) by {
                            assert(v@[i as int] == et);
                        }
                    }
                    return true;
                }
                i = i + 1;
            }
            false
        },
    }
}

/// Whether a discovery list already mentions an id.
fn disc_contains(d: &Vec<(u128, usize)>, id: u128) -> (r: bool)
    ensures
        r == disc_has(d@, id),
{
    let mut i: usize = 0;
    while i < d.len()
        invariant
            0 <= i <= d@.len(),
            forall|j: int| 0 <= j < i ==> d@[j].0 != id,
        decreases d@.len() - i,
    {
        if d[i].0 == id {
            return true;
        }
        i = i + 1;
    }
    false
}

/// Whether a discovery list of `(id, depth)` pairs mentions an id.
pub fn ids_contain_pairs(d: &Vec<(u128, usize)>, id: u128) -> (r: bool)
    ensures
        r == exists|i: int| 0 <= i < d@.len() && (#[trigger] d@[i]).0 == id,
{
    let mut i: usize = 0;
    while i < d.len()
        invariant
            0 <= i <= d@.len(),
            forall|j: int| 0 <= j < i ==> (#[trigger] d@[j]).0 != id,
        decreases d@.len() - i,
    {
        if d[i].0 == id {
            proof {
                assert(d@[i as int].0 == id);
            }
            return true;
        }
        i = i + 1;
    }
    false
}

/// Whether a plain id list mentions an id.
pub fn ids_contain(d: &Vec<u128>, id: u128) -> (r: bool)
    ensures
        r == d@.contains(id),
{
    let mut i: usize = 0;
    while i < d.len()
        invariant
            0 <= i <= d@.len(),
            forall|j: int| 0 <= j < i ==> d@[j] != id,
        decreases d@.len() - i,
    {
        if d[i] == id {
            return true;
        }
        i = i + 1;
    }
    false
}

// ---------------------------------------------------------------------------
// The store
// ---------------------------------------------------------------------------

/// An in-memory graph store over ordered node and edge tables.  Scans run
/// in insertion order, which fixes the tie-breaking order of every query.
#[derive(Debug)]
pub struct GraphStore {
    nodes: Vec<Node>,
    edges: Vec<Edge>,
}

impl GraphStore {
    /// The node table, in insertion order.
    pub closed spec fn nodes_seq(&self) -> Seq<Node> {
        self.nodes@
    }

    /// The edge table, in insertion order.
    pub closed spec fn edges_seq(&self) -> Seq<Edge> {
        self.edges@
    }

    /// The store's invariant: unique ids and no orphan edges.
    pub open spec fn wf(&self) -> bool {
        unique_node_ids(self.nodes_seq()) && unique_edge_ids(self.edges_seq()) && edges_grounded(
            self.nodes_seq(),
            self.edges_seq(),
        )
    }

    /// An empty store.
    pub fn new() -> (r: Self)
        ensures
            r.wf(),
            r.nodes_seq().len() == 0,
            r.edges_seq().len() == 0,
    {
        GraphStore { nodes: Vec::new(), edges: Vec::new() }
    }

    /// Looks up the table index of a node id.
    fn find_node_idx(&self, id: u128) -> (r: Option<usize>)
        ensures
            match r {
                Some(i) => i < self.nodes_seq().len() && self.nodes_seq()[i as int].id == id,
                None => !has_node(self.nodes_seq(), id),
            },
    {
        let mut i: usize = 0;
        while i < self.nodes.len()
            invariant
                0 <= i <= self.nodes_seq().len(),
                forall|j: int| 0 <= j < i ==> self.nodes_seq()[j].id != id,
            decreases self.nodes_seq().len() - i,
        {
            if self.nodes[i].id == id {
                return Some(i);
            }
            i = i + 1;
        }
        None
    }

    /// Looks up the table index of an edge id.
    fn find_edge_idx(&self, id: u128) -> (r: Option<usize>)
        ensures
            match r {
                Some(i) => i < self.edges_seq().len() && self.edges_seq()[i as int].id == id,
                None => !has_edge(self.edges_seq(), id),
            },
    {
        let mut i: usize = 0;
        while i < self.edges.len()
            invariant
                0 <= i <= self.edges_seq().len(),
                forall|j: int| 0 <= j < i ==> self.edges_seq()[j].id != id,
            decreases self.edges_seq().len() - i,
        {
            if self.edges[i].id == id {
                return Some(i);
            }
            i = i + 1;
        }
        None
    }

    /// Whether a node with the given id is stored.
    pub fn contains_node(&self, id: u128) -> (r: bool)
        ensures
            r == has_node(self.nodes_seq(), id),
    {
        self.find_node_idx(id).is_some()
    }

    /// Inserts a node.  Fails with `DuplicateNode` exactly when the id is
    /// already present, in which case nothing changes.
    pub fn add_node(&mut self, node: Node) -> (r: OnyxResult<()>)
        requires
            old(self).wf(),
        ensures
            final(self).wf(),
            match r {
                Ok(()) => !has_node(old(self).nodes_seq(), node.id) && final(self).nodes_seq()
                    == old(self).nodes_seq().push(node) && final(self).edges_seq() == old(
                    self,
                ).edges_seq(),
                Err(e) => e matches OnyxError::DuplicateNode(d) && d == node.id && has_node(
                    old(self).nodes_seq(),
                    node.id,
                ) && final(self).nodes_seq() == old(self).nodes_seq() && final(self).edges_seq()
                    == old(self).edges_seq(),
            },
    {
        if self.find_node_idx(node.id).is_some() {
            return Err(OnyxError::DuplicateNode(node.id));
        }
        proof {
            let ns = self.nodes_seq();
            assert forall|i: int|
                0 <= i < self.edges_seq().len() implies has_node(
                ns.push(node),
                (#[trigger] self.edges_seq()[i]).source_id,
            ) && has_node(ns.push(node), self.edges_seq()[i].target_id) by {
                let e = self.edges_seq()[i];
                let w = choose|w: int| 0 <= w < ns.len() && ns[w].id == e.source_id;
                assert(ns.push(node)[w].id == e.source_id);
                let v = choose|v: int| 0 <= v < ns.len() && ns[v].id == e.target_id;
                assert(ns.push(node)[v].id == e.target_id);
            }
        }
        self.nodes.push(node);
        Ok(())
    }

    /// Returns the stored node with the given id, if any.
    pub fn get_node(&self, id: u128) -> (r: Option<&Node>)
        requires
            self.wf(),
        ensures
            r is Some <==> has_node(self.nodes_seq(), id),
            match r {
                Some(n) => n.id == id && *n == node_with(self.nodes_seq(), id),
                None => true,
            },
    {
        match self.find_node_idx(id) {
            Some(i) => {
                proof {
                    let w = node_idx(self.nodes_seq(), id);
                    assert(self.nodes_seq()[w].id == id);
                    assert(w == i);
                }
                Some(&self.nodes[i])
            },
            None => None,
        }
    }

    /// Rewrites the whole record for the node's id, refreshing its
    /// last-modification timestamp, or inserts it if absent.
    pub fn update_node(&mut self, node: Node) -> (r: OnyxResult<()>)
        requires
            old(self).wf(),
        ensures
            final(self).wf(),
            r is Ok,
            final(self).edges_seq() == old(self).edges_seq(),
            ({
                let stored = if has_node(old(self).nodes_seq(), node.id) {
                    final(self).nodes_seq()[node_idx(old(self).nodes_seq(), node.id)]
                } else {
                    final(self).nodes_seq().last()
                };
                stored == (Node { updated_at: stored.updated_at, ..node })
            }),
            has_node(old(self).nodes_seq(), node.id) ==> final(self).nodes_seq().len() == old(
                self,
            ).nodes_seq().len() && (forall|k: int|
                0 <= k < final(self).nodes_seq().len() && k != node_idx(
                    old(self).nodes_seq(),
                    node.id,
                ) ==> final(self).nodes_seq()[k] == old(self).nodes_seq()[k]),
            !has_node(old(self).nodes_seq(), node.id) ==> final(self).nodes_seq().len() == old(
                self,
            ).nodes_seq().len() + 1 && (forall|k: int|
                0 <= k < old(self).nodes_seq().len() ==> final(self).nodes_seq()[k] == old(
                    self,
                ).nodes_seq()[k]),
    {
        let ghost ns = self.nodes_seq();
        let node = Node { updated_at: crate::external::now_millis(), ..node };
        match self.find_node_idx(node.id) {
            Some(i) => {
                proof {
                    let w = node_idx(ns, node.id);
                    assert(ns[w].id == node.id);
                    assert(w == i);
                }
                let ghost nid = node.id;
                self.nodes.set(i, node);
                proof {
                    assert forall|k: int|
                        0 <= k < self.edges_seq().len() implies has_node(
                        self.nodes_seq(),
                        (#[trigger] self.edges_seq()[k]).source_id,
                    ) && has_node(self.nodes_seq(), self.edges_seq()[k].target_id) by {
                        let e = self.edges_seq()[k];
                        let w = choose|w: int| 0 <= w < ns.len() && ns[w].id == e.source_id;
                        assert(self.nodes_seq()[w].id == e.source_id);
                        let v = choose|v: int| 0 <= v < ns.len() && ns[v].id == e.target_id;
                        assert(self.nodes_seq()[v].id == e.target_id);
                    }
                }
                Ok(())
            },
            None => {
                proof {
                    assert forall|k: int|
                        0 <= k < self.edges_seq().len() implies has_node(
                        ns.push(node),
                        (#[trigger] self.edges_seq()[k]).source_id,
                    ) && has_node(ns.push(node), self.edges_seq()[k].target_id) by {
                        let e = self.edges_seq()[k];
                        let w = choose|w: int| 0 <= w < ns.len() && ns[w].id == e.source_id;
                        assert(ns.push(node)[w].id == e.source_id);
                        let v = choose|v: int| 0 <= v < ns.len() && ns[v].id == e.target_id;
                        assert(ns.push(node)[v].id == e.target_id);
                    }
                }
                self.nodes.push(node);
                Ok(())
            },
        }
    }

    /// Removes a node and cascades: every edge touching it goes too.
    /// Removing an absent id changes nothing and still succeeds.
    #[verifier::loop_isolation(false)]
    pub fn remove_node(&mut self, id: u128) -> (r: OnyxResult<()>)
        requires
            old(self).wf(),
        ensures
            final(self).wf(),
            r is Ok,
            final(self).edges_seq() == old(self).edges_seq().filter(
                |e: Edge| e.source_id != id && e.target_id != id,
            ),
            has_node(old(self).nodes_seq(), id) ==> final(self).nodes_seq() == old(
                self,
            ).nodes_seq().remove(node_idx(old(self).nodes_seq(), id)),
            !has_node(old(self).nodes_seq(), id) ==> final(self).nodes_seq() == old(
                self,
            ).nodes_seq(),
            !has_node(final(self).nodes_seq(), id),
            forall|x: u128|
                x != id ==> (has_node(final(self).nodes_seq(), x) == has_node(
                    old(self).nodes_seq(),
                    x,
                )),
    {
        let ghost ns = self.nodes_seq();
        let ghost es = self.edges_seq();
        let ghost keep = |e: Edge| e.source_id != id && e.target_id != id;

        // Drop every edge touching the node, preserving the order of the rest.
        let mut kept: Vec<Edge> = Vec::new();
        let mut rest: Vec<Edge> = Vec::new();
        core::mem::swap(&mut rest, &mut self.edges);
        proof {
            assert(es.subrange(0, 0).filter(keep) =~= Seq::<Edge>::empty());
        }
        let ghost total: int = es.len() as int;
        let rlen: usize = rest.len();
        proof {
            assert(total == rlen);
        }
        let mut i: usize = 0;
        while rest.len() > 0
            invariant
                total == es.len(),
                total <= usize::MAX,
                i == total - rest@.len(),
                0 <= i <= total,
                rest@ =~= es.subrange(i as int, total),
                kept@ == es.subrange(0, i as int).filter(keep),
            decreases rest@.len(),
        {
            let e = rest.remove(0);
            proof {
                assert(e == es[i as int]);
                assert(es.subrange(0, i as int + 1) =~= es.subrange(0, i as int).push(e));
                assert(es.subrange(0, i as int + 1) == es.subrange(0, i as int).push(e));
                lemma_filter_push(es.subrange(0, i as int), keep, e);
            }
            if !(e.source_id == id || e.target_id == id) {
                kept.push(e);
            }
            i = i + 1;
        }
        proof {
            assert(es.subrange(0, total) =~= es);
            assert(es.subrange(0, total) == es);
        }
        self.edges = kept;

        // Drop the node itself.
        let ghost fes = self.edges_seq();
        match self.find_node_idx(id) {
            Some(i) => {
                proof {
                    let w = node_idx(ns, id);
                    assert(ns[w].id == id);
                    assert(w == i);
                }
                self.nodes.remove(i);
                proof {
                    let fns = self.nodes_seq();
                    assert forall|x: u128| x != id implies has_node(fns, x) == has_node(
                        ns,
                        x,
                    ) by {
                        if has_node(ns, x) {
                            let w = choose|w: int| 0 <= w < ns.len() && ns[w].id == x;
                            if w < i {
                                assert(fns[w].id == x);
                            } else {
                                assert(w > i);
                                assert(fns[w - 1].id == x);
                            }
                        }
                        if has_node(fns, x) {
                            let w = choose|w: int| 0 <= w < fns.len() && fns[w].id == x;
                            if w < i {
                                assert(ns[w].id == x);
                            } else {
                                assert(ns[w + 1].id == x);
                            }
                        }
                    }
                    assert(!has_node(fns, id)) by {
                        if has_node(fns, id) {
                            let w = choose|w: int| 0 <= w < fns.len() && fns[w].id == id;
                            if w < i {
                                assert(ns[w].id == id);
                            } else {
                                assert(ns[w + 1].id == id);
                            }
                        }
                    }
                    lemma_filter_unique_edges(es, keep);
                    let fns = self.nodes_seq();
                    assert(unique_node_ids(fns)) by {
                        assert forall|k: int, l: int|
                            0 <= k < l < fns.len() implies fns[k].id != fns[l].id by {
                            let ok: int = if k < i { k } else { k + 1 };
                            let ol: int = if l < i { l } else { l + 1 };
                            assert(fns[k] == ns[ok]);
                            assert(fns[l] == ns[ol]);
                        }
                    }
                    assert forall|k: int|
                        0 <= k < fes.len() implies has_node(
                        self.nodes_seq(),
                        (#[trigger] fes[k]).source_id,
                    ) && has_node(self.nodes_seq(), fes[k].target_id) by {
                        lemma_filter_sub(es, keep);
                        es.filter_lemma(keep);
                        assert(es.contains(fes[k]));
                        let w = choose|w: int| 0 <= w < es.len() && es[w] == fes[k];
                        assert(has_node(ns, es[w].source_id));
                        assert(keep(fes[k]));
                        assert(fes[k].source_id != id);
                        assert(fes[k].target_id != id);
                    }
                }
                Ok(())
            },
            None => {
                proof {
                    lemma_filter_unique_edges(es, keep);
                    assert forall|k: int|
                        0 <= k < fes.len() implies has_node(
                        self.nodes_seq(),
                        (#[trigger] fes[k]).source_id,
                    ) && has_node(self.nodes_seq(), fes[k].target_id) by {
                        lemma_filter_sub(es, keep);
                        assert(es.contains(fes[k]));
                        let w = choose|w: int| 0 <= w < es.len() && es[w] == fes[k];
                        assert(has_node(ns, es[w].source_id));
                        assert(keep(fes[k]));
                    }
                }
                Ok(())
            },
        }
    }

    /// Inserts an edge.  Fails with `NodeNotFound` naming the first missing
    /// endpoint (source checked before target), and with `DuplicateEdge`
    /// when the edge id is already present; on failure nothing changes.
    pub fn add_edge(&mut self, edge: Edge) -> (r: OnyxResult<()>)
        requires
            old(self).wf(),
        ensures
            final(self).wf(),
            final(self).nodes_seq() == old(self).nodes_seq(),
            match r {
                Ok(()) => has_node(old(self).nodes_seq(), edge.source_id) && has_node(
                    old(self).nodes_seq(),
                    edge.target_id,
                ) && !has_edge(old(self).edges_seq(), edge.id) && final(self).edges_seq() == old(
                    self,
                ).edges_seq().push(edge),
                Err(e) => final(self).edges_seq() == old(self).edges_seq() && match e {
                    OnyxError::NodeNotFound(m) => (m == edge.source_id && !has_node(
                        old(self).nodes_seq(),
                        edge.source_id,
                    )) || (m == edge.target_id && has_node(old(self).nodes_seq(), edge.source_id)
                        && !has_node(old(self).nodes_seq(), edge.target_id)),
                    OnyxError::DuplicateEdge(d) => d == edge.id && has_node(
                        old(self).nodes_seq(),
                        edge.source_id,
                    ) && has_node(old(self).nodes_seq(), edge.target_id) && has_edge(
                        old(self).edges_seq(),
                        edge.id,
                    ),
                    _ => false,
                },
            },
    {
        if self.find_node_idx(edge.source_id).is_none() {
            return Err(OnyxError::NodeNotFound(edge.source_id));
        }
        if self.find_node_idx(edge.target_id).is_none() {
            return Err(OnyxError::NodeNotFound(edge.target_id));
        }
        if self.find_edge_idx(edge.id).is_some() {
            return Err(OnyxError::DuplicateEdge(edge.id));
        }
        self.edges.push(edge);
        Ok(())
    }

    /// Returns the stored edge with the given id, if any.
    pub fn get_edge(&self, id: u128) -> (r: Option<&Edge>)
        requires
            self.wf(),
        ensures
            r is Some <==> has_edge(self.edges_seq(), id),
            match r {
                Some(e) => e.id == id && *e == edge_with(self.edges_seq(), id),
                None => true,
            },
    {
        match self.find_edge_idx(id) {
            Some(i) => {
                proof {
                    let w = edge_idx(self.edges_seq(), id);
                    assert(self.edges_seq()[w].id == id);
                    assert(w == i);
                }
                Some(&self.edges[i])
            },
            None => None,
        }
    }

    /// Removes an edge by id.  Removing an absent id changes nothing and
    /// still succeeds.
    pub fn remove_edge(&mut self, id: u128) -> (r: OnyxResult<()>)
        requires
            old(self).wf(),
        ensures
            final(self).wf(),
            r is Ok,
            final(self).nodes_seq() == old(self).nodes_seq(),
            has_edge(old(self).edges_seq(), id) ==> final(self).edges_seq() == old(
                self,
            ).edges_seq().remove(edge_idx(old(self).edges_seq(), id)),
            !has_edge(old(self).edges_seq(), id) ==> final(self).edges_seq() == old(
                self,
            ).edges_seq(),
            !has_edge(final(self).edges_seq(), id),
    {
        let ghost es = self.edges_seq();
        match self.find_edge_idx(id) {
            Some(i) => {
                proof {
                    let w = edge_idx(es, id);
                    assert(es[w].id == id);
                    assert(w == i);
                }
                self.edges.remove(i);
                proof {
                    let fes = self.edges_seq();
                    assert forall|k: int|
                        0 <= k < fes.len() implies has_node(
                        self.nodes_seq(),
                        (#[trigger] fes[k]).source_id,
                    ) && has_node(self.nodes_seq(), fes[k].target_id) by {
                        if k < i {
                            assert(fes[k] == es[k]);
                        } else {
                            assert(fes[k] == es[k + 1]);
                        }
                    }
                    assert(!has_edge(fes, id)) by {
                        if has_edge(fes, id) {
                            let w = choose|w: int| 0 <= w < fes.len() && fes[w].id == id;
                            if w < i {
                                assert(es[w].id == id);
                            } else {
                                assert(es[w + 1].id == id);
                            }
                        }
                    }
                }
                Ok(())
            },
            None => Ok(()),
        }
    }

    /// Returns the outbound `(edge, target node)` pairs of a node, in edge
    /// insertion order, optionally filtered by edge type.  The result lists
    /// exactly the stored edges leaving the node that pass the filter.
    #[verifier::loop_isolation(false)]
    pub fn get_neighbors<'a>(&'a self, id: u128, edge_types: Option<&Vec<EdgeType>>) -> (r: Vec<
        (&'a Edge, &'a Node),
    >)
        requires
            self.wf(),
        ensures
            ({
                let matching = self.edges_seq().filter(
                    |e: Edge| e.source_id == id && passes_filter(
                        filter_view(edge_types),
                        e.edge_type,
                    ),
                );
                &&& r@.len() == matching.len()
                &&& (forall|k: int| 0 <= k < r@.len() ==> *(#[trigger] r@[k]).0 == matching[k])
                &&& (forall|k: int|
                    0 <= k < r@.len() ==> *(#[trigger] r@[k]).1 == node_with(
                        self.nodes_seq(),
                        matching[k].target_id,
                    ) && r@[k].1.id == matching[k].target_id)
            }),
            forall|k: int|
                0 <= k < r@.len() ==> self.nodes_seq().contains(*(#[trigger] r@[k]).1)
                    && self.edges_seq().contains(*r@[k].0) && r@[k].0.source_id == id
                    && r@[k].0.target_id == r@[k].1.id && *r@[k].1 == node_with(
                    self.nodes_seq(),
                    r@[k].0.target_id,
                ) && passes_filter(filter_view(edge_types), r@[k].0.edge_type),
            forall|k: int|
                0 <= k < self.edges_seq().len() && (#[trigger] self.edges_seq()[k]).source_id == id
                    && passes_filter(filter_view(edge_types), self.edges_seq()[k].edge_type)
                    ==> exists|w: int| 0 <= w < r@.len() && *(#[trigger] r@[w]).0
                    == self.edges_seq()[k],
    {
        let ghost es = self.edges_seq();
        let ghost ns = self.nodes_seq();
        let ghost pred = |e: Edge| e.source_id == id && passes_filter(
            filter_view(edge_types),
            e.edge_type,
        );
        let mut r: Vec<(&'a Edge, &'a Node)> = Vec::new();
        let mut i: usize = 0;
        proof {
            assert(es.subrange(0, 0).filter(pred) =~= Seq::<Edge>::empty());
        }
        while i < self.edges.len()
            invariant
                0 <= i <= es.len(),
                r@.len() == es.subrange(0, i as int).filter(pred).len(),
                forall|k: int|
                    0 <= k < r@.len() ==> *(#[trigger] r@[k]).0 == es.subrange(0, i as int).filter(
                        pred,
                    )[k],
                forall|k: int|
                    0 <= k < r@.len() ==> *(#[trigger] r@[k]).1 == node_with(
                        ns,
                        es.subrange(0, i as int).filter(pred)[k].target_id,
                    ) && r@[k].1.id == es.subrange(0, i as int).filter(pred)[k].target_id,
            decreases es.len() - i,
        {
            proof {
                assert(es.subrange(0, i as int + 1) =~= es.subrange(0, i as int).push(es[i as int]));
                assert(es.subrange(0, i as int + 1) == es.subrange(0, i as int).push(es[i as int]));
                lemma_filter_push(es.subrange(0, i as int), pred, es[i as int]);
            }
            let e: &Edge = &self.edges[i];
            if e.source_id == id && passes(edge_types, e.edge_type) {
                match self.find_node_idx(e.target_id) {
                    Some(j) => {
                        proof {
                            let w = node_idx(ns, e.target_id);
                            assert(ns[w].id == e.target_id);
                            assert(w == j);
                        }
                        r.push((e, &self.nodes[j]));
                    },
                    None => {
                        proof {
                            assert(has_node(ns, es[i as int].target_id));
                            assert(false);
                        }
                    },
                }
            }
            i = i + 1;
        }
        proof {
            assert(es.subrange(0, es.len() as int) =~= es);
            assert(es.subrange(0, es.len() as int) == es);
            lemma_filter_sub(es, pred);
            assert forall|k: int|
                0 <= k < r@.len() implies ns.contains(*(#[trigger] r@[k]).1) && es.contains(
                *r@[k].0,
            ) && r@[k].0.source_id == id && r@[k].0.target_id == r@[k].1.id && *r@[k].1
                == node_with(ns, r@[k].0.target_id) && passes_filter(
                filter_view(edge_types),
                r@[k].0.edge_type,
            ) by {
                let e = es.filter(pred)[k];
                assert(*r@[k].0 == e);
                assert(es.contains(e));
                assert(pred(e));
                assert(has_node(ns, e.target_id));
                let w = node_idx(ns, e.target_id);
                assert(ns[w] == node_with(ns, e.target_id));
                assert(ns.contains(node_with(ns, e.target_id)));
            }
            assert forall|k: int|
                0 <= k < es.len() && (#[trigger] es[k]).source_id == id && passes_filter(
                    filter_view(edge_types),
                    es[k].edge_type,
                ) implies exists|w: int| 0 <= w < r@.len() && *(#[trigger] r@[w]).0 == es[k] by {
                assert(pred(es[k]));
                es.lemma_filter_contains(pred, k);
                let w = choose|w: int|
                    0 <= w < es.filter(pred).len() && es.filter(pred)[w] == es[k];
                assert(*r@[w].0 == es[k]);
            }
        }
        r
    }

    /// Returns the inbound `(edge, source node)` pairs of a node, in edge
    /// insertion order, optionally filtered by edge type.  The result lists
    /// exactly the stored edges entering the node that pass the filter.
    #[verifier::loop_isolation(false)]
    pub fn get_inbound<'a>(&'a self, id: u128, edge_types: Option<&Vec<EdgeType>>) -> (r: Vec<
        (&'a Edge, &'a Node),
    >)
        requires
            self.wf(),
        ensures
            ({
                let matching = self.edges_seq().filter(
                    |e: Edge| e.target_id == id && passes_filter(
                        filter_view(edge_types),
                        e.edge_type,
                    ),
                );
                &&& r@.len() == matching.len()
                &&& (forall|k: int| 0 <= k < r@.len() ==> *(#[trigger] r@[k]).0 == matching[k])
                &&& (forall|k: int|
                    0 <= k < r@.len() ==> *(#[trigger] r@[k]).1 == node_with(
                        self.nodes_seq(),
                        matching[k].source_id,
                    ) && r@[k].1.id == matching[k].source_id)
            }),
            forall|k: int|
                0 <= k < r@.len() ==> self.nodes_seq().contains(*(#[trigger] r@[k]).1)
                    && self.edges_seq().contains(*r@[k].0) && r@[k].0.target_id == id
                    && r@[k].0.source_id == r@[k].1.id && *r@[k].1 == node_with(
                    self.nodes_seq(),
                    r@[k].0.source_id,
                ) && passes_filter(filter_view(edge_types), r@[k].0.edge_type),
            forall|k: int|
                0 <= k < self.edges_seq().len() && (#[trigger] self.edges_seq()[k]).target_id == id
                    && passes_filter(filter_view(edge_types), self.edges_seq()[k].edge_type)
                    ==> exists|w: int| 0 <= w < r@.len() && *(#[trigger] r@[w]).0
                    == self.edges_seq()[k],
    {
        let ghost es = self.edges_seq();
        let ghost ns = self.nodes_seq();
        let ghost pred = |e: Edge| e.target_id == id && passes_filter(
            filter_view(edge_types),
            e.edge_type,
        );
        let mut r: Vec<(&'a Edge, &'a Node)> = Vec::new();
        let mut i: usize = 0;
        proof {
            assert(es.subrange(0, 0).filter(pred) =~= Seq::<Edge>::empty());
        }
        while i < self.edges.len()
            invariant
                0 <= i <= es.len(),
                r@.len() == es.subrange(0, i as int).filter(pred).len(),
                forall|k: int|
                    0 <= k < r@.len() ==> *(#[trigger] r@[k]).0 == es.subrange(0, i as int).filter(
                        pred,
                    )[k],
                forall|k: int|
                    0 <= k < r@.len() ==> *(#[trigger] r@[k]).1 == node_with(
                        ns,
                        es.subrange(0, i as int).filter(pred)[k].source_id,
                    ) && r@[k].1.id == es.subrange(0, i as int).filter(pred)[k].source_id,
            decreases es.len() - i,
        {
            proof {
                assert(es.subrange(0, i as int + 1) =~= es.subrange(0, i as int).push(es[i as int]));
                assert(es.subrange(0, i as int + 1) == es.subrange(0, i as int).push(es[i as int]));
                lemma_filter_push(es.subrange(0, i as int), pred, es[i as int]);
            }
            let e: &Edge = &self.edges[i];
            if e.target_id == id && passes(edge_types, e.edge_type) {
                match self.find_node_idx(e.source_id) {
                    Some(j) => {
                        proof {
                            let w = node_idx(ns, e.source_id);
                            assert(ns[w].id == e.source_id);
                            assert(w == j);
                        }
                        r.push((e, &self.nodes[j]));
                    },
                    None => {
                        proof {
                            assert(has_node(ns, es[i as int].source_id));
                            assert(false);
                        }
                    },
                }
            }
            i = i + 1;
        }
        proof {
            assert(es.subrange(0, es.len() as int) =~= es);
            assert(es.subrange(0, es.len() as int) == es);
            lemma_filter_sub(es, pred);
            assert forall|k: int|
                0 <= k < r@.len() implies ns.contains(*(#[trigger] r@[k]).1) && es.contains(
                *r@[k].0,
            ) && r@[k].0.target_id == id && r@[k].0.source_id == r@[k].1.id && *r@[k].1
                == node_with(ns, r@[k].0.source_id) && passes_filter(
                filter_view(edge_types),
                r@[k].0.edge_type,
            ) by {
                let e = es.filter(pred)[k];
                assert(*r@[k].0 == e);
                assert(es.contains(e));
                assert(pred(e));
                assert(has_node(ns, e.source_id));
                let w = node_idx(ns, e.source_id);
                assert(ns[w] == node_with(ns, e.source_id));
                assert(ns.contains(node_with(ns, e.source_id)));
            }
            assert forall|k: int|
                0 <= k < es.len() && (#[trigger] es[k]).target_id == id && passes_filter(
                    filter_view(edge_types),
                    es[k].edge_type,
                ) implies exists|w: int| 0 <= w < r@.len() && *(#[trigger] r@[w]).0 == es[k] by {
                assert(pred(es[k]));
                es.lemma_filter_contains(pred, k);
                let w = choose|w: int|
                    0 <= w < es.filter(pred).len() && es.filter(pred)[w] == es[k];
                assert(*r@[w].0 == es[k]);
            }
        }
        r
    }

    /// Breadth-first traversal from a start node, following outbound edges
    /// that pass the filter, to a maximum depth.  Fails with `NodeNotFound`
    /// exactly when the start node is absent.  The discovery list is sound
    /// (every entry is a stored node reached by stored filtered edges, at
    /// its stated depth, each id at most once, within the bound), complete
    /// with minimal depths (every id reachable within the bound appears, at
    /// or below its distance), and the followed-edge list names exactly the
    /// filtered edges leaving nodes discovered below the bound, each once.
    #[verifier::loop_isolation(false)]
    #[verifier::rlimit(100)]
    #[verifier::spinoff_prover]
    pub fn traverse(
        &self,
        start_id: u128,
        edge_types: Option<&Vec<EdgeType>>,
        max_depth: usize,
    ) -> (r: OnyxResult<TraversalResult>)
        requires
            self.wf(),
        ensures
            r is Ok <==> has_node(self.nodes_seq(), start_id),
            match r {
                Ok(t) => {
                    &&& traversal_sound(
                        self.nodes_seq(),
                        self.edges_seq(),
                        filter_view(edge_types),
                        start_id,
                        max_depth,
                        t.nodes@,
                    )
                    &&& traversal_complete(
                        self.edges_seq(),
                        filter_view(edge_types),
                        max_depth,
                        t.nodes@,
                    )
                    &&& (forall|i: int|
                        0 <= i < t.nodes@.len() ==> reaches(
                            self.edges_seq(),
                            filter_view(edge_types),
                            start_id,
                            (#[trigger] t.nodes@[i]).0,
                            t.nodes@[i].1 as nat,
                        ))
                    &&& (forall|id: u128, k: nat|
                        k <= max_depth && #[trigger] reaches(
                            self.edges_seq(),
                            filter_view(edge_types),
                            start_id,
                            id,
                            k,
                        ) ==> disc_has_within(t.nodes@, id, k as int))
                    &&& t.total_visited == t.nodes@.len()
                    &&& followed_exact(
                        self.edges_seq(),
                        filter_view(edge_types),
                        max_depth,
                        t.nodes@,
                        t.edges@,
                    )
                },
                Err(e) => e matches OnyxError::NodeNotFound(q) && q == start_id,
            },
    {
        let ghost ns = self.nodes_seq();
        let ghost es = self.edges_seq();
        let ghost fv = filter_view(edge_types);
        if self.find_node_idx(start_id).is_none() {
            return Err(OnyxError::NodeNotFound(start_id));
        }
        let mut disc: Vec<(u128, usize)> = Vec::new();
        disc.push((start_id, 0));
        let mut followed: Vec<u128> = Vec::new();
        let ghost mut prov: Seq<(int, int)> = Seq::empty();
        let mut qi: usize = 0;
        while qi < disc.len()
            invariant
                0 <= qi <= disc@.len(),
                disc@.len() >= 1,
                disc@[0] == (start_id, 0usize),
                forall|i: int, j: int| 0 <= i < j < disc@.len() ==> disc@[i].0 != disc@[j].0,
                forall|i: int| 0 <= i < disc@.len() ==> has_node(ns, (#[trigger] disc@[i]).0),
                forall|i: int| 0 <= i < disc@.len() ==> (#[trigger] disc@[i]).1 <= max_depth,
                forall|i: int, j: int| 0 <= i < j < disc@.len() ==> disc@[i].1 <= disc@[j].1,
                qi < disc@.len() ==> disc@[disc@.len() - 1].1 <= disc@[qi as int].1 + 1,
                forall|i: int| 1 <= i < disc@.len() ==> #[trigger] reached_from(es, fv, disc@, i),
                forall|i: int, k: int|
                    0 <= i < qi && 0 <= k < es.len() && (#[trigger] disc@[i]).1 < max_depth && (
                    #[trigger] es[k]).source_id == disc@[i].0 && passes_filter(fv, es[k].edge_type)
                        ==> disc_has_within(disc@, es[k].target_id, disc@[i].1 + 1),
                forall|x: int, y: int|
                    0 <= x < y < followed@.len() ==> followed@[x] != followed@[y],
                prov.len() == followed@.len(),
                forall|x: int|
                    0 <= x < followed@.len() ==> prov_ok(
                        es,
                        fv,
                        max_depth,
                        disc@,
                        followed@,
                        #[trigger] prov[x],
                        x,
                        qi as int,
                        0,
                    ),
                covered_upto(es, fv, max_depth, disc@, followed@, qi as int, 0),
            decreases ns.len() + 1 - qi,
        {
            proof {
                assert forall|i: int, j: int|
                    0 <= i < j < disc_ids(disc@).len() implies disc_ids(disc@)[i] != disc_ids(
                    disc@,
                )[j] by {
                    assert(disc_ids(disc@)[i] == disc@[i].0);
                    assert(disc_ids(disc@)[j] == disc@[j].0);
                }
                assert forall|i: int| 0 <= i < disc_ids(disc@).len() implies has_node(
                    ns,
                    #[trigger] disc_ids(disc@)[i],
                ) by {
                    assert(disc_ids(disc@)[i] == disc@[i].0);
                }
                lemma_distinct_ids_bound(ns, disc_ids(disc@));
            }
            let current: u128 = disc[qi].0;
            let depth: usize = disc[qi].1;
            if depth < max_depth {
                let mut k: usize = 0;
                while k < self.edges.len()
                    invariant
                        0 <= k <= es.len(),
                        qi < disc@.len(),
                        disc@[qi as int] == (current, depth),
                        depth < max_depth,
                        disc@.len() >= 1,
                        disc@[0] == (start_id, 0usize),
                        forall|i: int, j: int|
                            0 <= i < j < disc@.len() ==> disc@[i].0 != disc@[j].0,
                        forall|i: int|
                            0 <= i < disc@.len() ==> has_node(ns, (#[trigger] disc@[i]).0),
                        forall|i: int|
                            0 <= i < disc@.len() ==> (#[trigger] disc@[i]).1 <= max_depth,
                        forall|i: int, j: int|
                            0 <= i < j < disc@.len() ==> disc@[i].1 <= disc@[j].1,
                        disc@[disc@.len() - 1].1 <= depth + 1,
                        forall|i: int|
                            1 <= i < disc@.len() ==> #[trigger] reached_from(es, fv, disc@, i),
                        forall|i: int, kk: int|
                            0 <= i < qi && 0 <= kk < es.len() && (#[trigger] disc@[i]).1
                                < max_depth && (#[trigger] es[kk]).source_id == disc@[i].0
                                && passes_filter(fv, es[kk].edge_type) ==> disc_has_within(
                                disc@,
                                es[kk].target_id,
                                disc@[i].1 + 1,
                            ),
                        forall|kk: int|
                            0 <= kk < k && (#[trigger] es[kk]).source_id == current
                                && passes_filter(fv, es[kk].edge_type) ==> disc_has_within(
                                disc@,
                                es[kk].target_id,
                                depth + 1,
                            ),
                        forall|x: int, y: int|
                            0 <= x < y < followed@.len() ==> followed@[x] != followed@[y],
                        prov.len() == followed@.len(),
                        forall|x: int|
                            0 <= x < followed@.len() ==> prov_ok(
                                es,
                                fv,
                                max_depth,
                                disc@,
                                followed@,
                                #[trigger] prov[x],
                                x,
                                qi as int,
                                k as int,
                            ),
                        covered_upto(es, fv, max_depth, disc@, followed@, qi as int, k as int),
                    decreases es.len() - k,
                {
                    let ghost prev = disc@;
                    let ghost fprev = followed@;
                    let e: &Edge = &self.edges[k];
                    if e.source_id == current && passes(edge_types, e.edge_type) {
                        followed.push(e.id);
                        proof {
                            prov = prov.push((qi as int, k as int));
                            // The freshly followed edge was never followed
                            // before: an earlier occurrence would name the
                            // same edge, examined earlier from the same
                            // node, which positions rule out.
                            assert forall|x: int, y: int|
                                0 <= x < y < followed@.len() implies followed@[x]
                                != followed@[y] by {
                                if y == followed@.len() - 1 {
                                    assert(followed@[x] == fprev[x]);
                                    if fprev[x] == es[k as int].id {
                                        assert(prov_ok(
                                            es,
                                            fv,
                                            max_depth,
                                            disc@,
                                            fprev,
                                            prov[x],
                                            x,
                                            qi as int,
                                            k as int,
                                        ));
                                        let p = prov[x];
                                        assert(es[p.1].id == es[k as int].id);
                                        assert(p.1 == k as int);
                                        assert(disc@[p.0].0 == current);
                                        assert(p.0 == qi);
                                        assert(false);
                                    }
                                }
                            }
                            assert forall|x: int|
                                0 <= x < followed@.len() implies prov_ok(
                                es,
                                fv,
                                max_depth,
                                disc@,
                                followed@,
                                #[trigger] prov[x],
                                x,
                                qi as int,
                                k as int + 1,
                            ) by {
                                if x < fprev.len() {
                                    assert(followed@[x] == fprev[x]);
                                    assert(prov_ok(
                                        es,
                                        fv,
                                        max_depth,
                                        disc@,
                                        fprev,
                                        prov[x],
                                        x,
                                        qi as int,
                                        k as int,
                                    ));
                                } else {
                                    assert(prov[x] == (qi as int, k as int));
                                }
                            }
                        }
                        if !disc_contains(&disc, e.target_id) {
                            disc.push((e.target_id, depth + 1));
                            proof {
                                let d2 = disc@;
                                assert(d2 == prev.push((es[k as int].target_id, (depth
                                    + 1) as usize)));
                                assert forall|i: int|
                                    1 <= i < d2.len() implies #[trigger] reached_from(
                                    es,
                                    fv,
                                    d2,
                                    i,
                                ) by {
                                    if i < prev.len() {
                                        assert(reached_from(es, fv, prev, i));
                                        let (j, kk): (int, int) = choose|j: int, kk: int|
                                            #![trigger prev[j], es[kk]]
                                            0 <= j < i && 0 <= kk < es.len() && prev[i].1 == prev[j].1
                                                + 1 && es[kk].source_id == prev[j].0
                                                && es[kk].target_id == prev[i].0 && passes_filter(
                                                fv,
                                                es[kk].edge_type,
                                            );
                                        assert(d2[j] == prev[j]);
                                        assert(d2[i] == prev[i]);
                                    } else {
                                        assert(d2[i] == (es[k as int].target_id, (depth
                                            + 1) as usize));
                                        assert(d2[qi as int] == (current, depth));
                                        assert(es[k as int].source_id == d2[qi as int].0);
                                    }
                                }
                                assert forall|i: int, kk: int|
                                    0 <= i < qi && 0 <= kk < es.len() && (#[trigger] d2[i]).1
                                        < max_depth && (#[trigger] es[kk]).source_id == d2[i].0
                                        && passes_filter(fv, es[kk].edge_type) implies disc_has_within(
                                    d2,
                                    es[kk].target_id,
                                    d2[i].1 + 1,
                                ) by {
                                    assert(d2[i] == prev[i]);
                                    assert(disc_has_within(prev, es[kk].target_id, prev[i].1 + 1));
                                    let w = choose|w: int|
                                        0 <= w < prev.len() && (#[trigger] prev[w]).0
                                            == es[kk].target_id && prev[w].1 <= prev[i].1 + 1;
                                    assert(d2[w].0 == es[kk].target_id && d2[w].1 <= d2[i].1 + 1);
                                }
                                assert forall|kk: int|
                                    0 <= kk < k + 1 && (#[trigger] es[kk]).source_id == current
                                        && passes_filter(fv, es[kk].edge_type) implies disc_has_within(
                                    d2,
                                    es[kk].target_id,
                                    depth + 1,
                                ) by {
                                    if kk < k {
                                        assert(disc_has_within(prev, es[kk].target_id, depth + 1));
                                        let w = choose|w: int|
                                            0 <= w < prev.len() && (#[trigger] prev[w]).0
                                                == es[kk].target_id && prev[w].1 <= depth + 1;
                                        assert(d2[w].0 == es[kk].target_id && d2[w].1 <= depth
                                            + 1);
                                    } else {
                                        assert(d2[d2.len() - 1].0 == es[k as int].target_id
                                            && d2[d2.len() - 1].1 <= depth + 1);
                                    }
                                }
                                assert forall|x: int|
                                    0 <= x < followed@.len() implies prov_ok(
                                    es,
                                    fv,
                                    max_depth,
                                    d2,
                                    followed@,
                                    #[trigger] prov[x],
                                    x,
                                    qi as int,
                                    k as int + 1,
                                ) by {
                                    assert(prov_ok(
                                        es,
                                        fv,
                                        max_depth,
                                        prev,
                                        followed@,
                                        prov[x],
                                        x,
                                        qi as int,
                                        k as int + 1,
                                    ));
                                    assert(d2[prov[x].0] == prev[prov[x].0]);
                                }
                                assert forall|i2: int, kk2: int|
                                    0 <= i2 < d2.len() && 0 <= kk2 < es.len() && (i2 < qi || (i2
                                        == qi && kk2 < k + 1)) && (#[trigger] es[kk2]).source_id
                                        == (#[trigger] d2[i2]).0 && d2[i2].1 < max_depth
                                        && passes_filter(fv, es[kk2].edge_type) implies followed@.contains(
                                    es[kk2].id,
                                ) by {
                                    assert(i2 < prev.len());
                                    assert(d2[i2] == prev[i2]);
                                    if i2 < qi || (i2 == qi && kk2 < k) {
                                        assert(fprev.contains(es[kk2].id));
                                        let w = choose|w: int|
                                            0 <= w < fprev.len() && fprev[w] == es[kk2].id;
                                        assert(followed@[w] == es[kk2].id);
                                    } else {
                                        assert(i2 == qi && kk2 == k);
                                        assert(followed@[followed@.len() - 1] == es[k as int].id);
                                    }
                                }
                            }
                        } else {
                            proof {
                                assert forall|kk: int|
                                    0 <= kk < k + 1 && (#[trigger] es[kk]).source_id == current
                                        && passes_filter(fv, es[kk].edge_type) implies disc_has_within(
                                    disc@,
                                    es[kk].target_id,
                                    depth + 1,
                                ) by {
                                    if kk == k {
                                        assert(disc_has(disc@, es[k as int].target_id));
                                        let w = choose|w: int|
                                            0 <= w < disc@.len() && (#[trigger] disc@[w]).0
                                                == es[k as int].target_id;
                                        assert(disc@[w].1 <= disc@[disc@.len() - 1].1) by {
                                            if w < disc@.len() - 1 {
                                                assert(disc@[w].1 <= disc@[disc@.len() - 1].1);
                                            }
                                        }
                                        assert(disc@[w].1 <= depth + 1);
                                    }
                                }
                                assert forall|i2: int, kk2: int|
                                    0 <= i2 < disc@.len() && 0 <= kk2 < es.len() && (i2 < qi || (i2
                                        == qi && kk2 < k + 1)) && (#[trigger] es[kk2]).source_id
                                        == (#[trigger] disc@[i2]).0 && disc@[i2].1 < max_depth
                                        && passes_filter(fv, es[kk2].edge_type) implies followed@.contains(
                                    es[kk2].id,
                                ) by {
                                    if i2 < qi || (i2 == qi && kk2 < k) {
                                        assert(fprev.contains(es[kk2].id));
                                        let w = choose|w: int|
                                            0 <= w < fprev.len() && fprev[w] == es[kk2].id;
                                        assert(followed@[w] == es[kk2].id);
                                    } else {
                                        assert(i2 == qi && kk2 == k);
                                        assert(followed@[followed@.len() - 1] == es[k as int].id);
                                    }
                                }
                            }
                        }
                    } else {
                        proof {
                            assert forall|i2: int, kk2: int|
                                0 <= i2 < disc@.len() && 0 <= kk2 < es.len() && (i2 < qi || (i2
                                    == qi && kk2 < k + 1)) && (#[trigger] es[kk2]).source_id == (
                                #[trigger] disc@[i2]).0 && disc@[i2].1 < max_depth && passes_filter(
                                    fv,
                                    es[kk2].edge_type,
                                ) implies followed@.contains(es[kk2].id) by {
                                if !(i2 < qi || (i2 == qi && kk2 < k)) {
                                    assert(i2 == qi && kk2 == k);
                                    assert(es[kk2].source_id == current && passes_filter(
                                        fv,
                                        es[kk2].edge_type,
                                    ));
                                    assert(false);
                                }
                            }
                        }
                    }
                    k = k + 1;
                }
                proof {
                    assert forall|x: int|
                        0 <= x < followed@.len() implies prov_ok(
                        es,
                        fv,
                        max_depth,
                        disc@,
                        followed@,
                        #[trigger] prov[x],
                        x,
                        qi as int + 1,
                        0,
                    ) by {
                        assert(prov_ok(
                            es,
                            fv,
                            max_depth,
                            disc@,
                            followed@,
                            prov[x],
                            x,
                            qi as int,
                            es.len() as int,
                        ));
                    }
                    lemma_covered_step(es, fv, max_depth, disc@, followed@, qi as int);
                }
            } else {
                proof {
                    assert forall|x: int|
                        0 <= x < followed@.len() implies prov_ok(
                        es,
                        fv,
                        max_depth,
                        disc@,
                        followed@,
                        #[trigger] prov[x],
                        x,
                        qi as int + 1,
                        0,
                    ) by {
                        assert(prov_ok(
                            es,
                            fv,
                            max_depth,
                            disc@,
                            followed@,
                            prov[x],
                            x,
                            qi as int,
                            0,
                        ));
                    }
                    lemma_covered_skip(es, fv, max_depth, disc@, followed@, qi as int);
                }
            }
            qi = qi + 1;
        }
        proof {
            assert forall|i: int| 0 <= i < disc@.len() implies reaches(
                es,
                fv,
                start_id,
                (#[trigger] disc@[i]).0,
                disc@[i].1 as nat,
            ) by {
                lemma_sound_entry_reaches(ns, es, fv, start_id, max_depth, disc@, i);
            }
            assert forall|id: u128, k: nat|
                k <= max_depth && #[trigger] reaches(es, fv, start_id, id, k) implies disc_has_within(
                disc@,
                id,
                k as int,
            ) by {
                lemma_reachable_is_discovered(es, fv, start_id, max_depth, disc@, id, k);
            }
            assert forall|x: int|
                0 <= x < followed@.len() implies is_followable(
                es,
                fv,
                max_depth,
                disc@,
                #[trigger] followed@[x],
            ) by {
                assert(prov_ok(es, fv, max_depth, disc@, followed@, prov[x], x, qi as int, 0));
                let p = prov[x];
                assert(0 <= p.0 < disc@.len() && 0 <= p.1 < es.len() && es[p.1].id == followed@[x]
                    && es[p.1].source_id == disc@[p.0].0 && disc@[p.0].1 < max_depth
                    && passes_filter(fv, es[p.1].edge_type));
            }
            assert(followed_sound(es, fv, max_depth, disc@, followed@));
        }
        let total: usize = disc.len();
        Ok(TraversalResult { nodes: disc, edges: followed, total_visited: total })
    }

    /// All simple paths from one node to another with at most `max_depth`
    /// edges, in depth-first discovery order.  Fails with `NodeNotFound`
    /// naming the first missing endpoint.  Every returned path starts at
    /// `from`, ends at `to`, repeats no node, and each step follows a
    /// stored edge.
    pub fn find_paths(&self, from: u128, to: u128, max_depth: usize) -> (r: OnyxResult<
        Vec<Vec<u128>>,
    >)
        requires
            self.wf(),
        ensures
            match r {
                Ok(paths) => has_node(self.nodes_seq(), from) && has_node(self.nodes_seq(), to)
                    && (forall|p: int|
                    0 <= p < paths@.len() ==> path_ok(
                        self.edges_seq(),
                        from,
                        to,
                        max_depth,
                        (#[trigger] paths@[p])@,
                    )) && (forall|q: Seq<u128>|
                    #[trigger] path_ok(self.edges_seq(), from, to, max_depth, q) ==> result_has(
                        paths@,
                        q,
                    )),
                Err(e) => e matches OnyxError::NodeNotFound(q) && ((q == from && !has_node(
                    self.nodes_seq(),
                    from,
                )) || (q == to && has_node(self.nodes_seq(), from) && !has_node(
                    self.nodes_seq(),
                    to,
                ))),
            },
    {
        if self.find_node_idx(from).is_none() {
            return Err(OnyxError::NodeNotFound(from));
        }
        if self.find_node_idx(to).is_none() {
            return Err(OnyxError::NodeNotFound(to));
        }
        let mut path: Vec<u128> = Vec::new();
        path.push(from);
        let ghost base = path@;
        let mut results: Vec<Vec<u128>> = Vec::new();
        self.dfs_paths(to, max_depth, &mut path, &mut results);
        proof {
            assert forall|p: int| 0 <= p < results@.len() implies path_ok(
                self.edges_seq(),
                from,
                to,
                max_depth,
                (#[trigger] results@[p])@,
            ) by {
                let q = results@[p]@;
                assert(path_extends(self.edges_seq(), base, to, max_depth, q));
                assert(q.subrange(0, 1) == base);
                assert(q[0] == q.subrange(0, 1)[0]);
                assert(q[0] == from);
            }
            assert forall|q: Seq<u128>|
                #[trigger] path_ok(self.edges_seq(), from, to, max_depth, q) implies result_has(
                results@,
                q,
            ) by {
                assert(q.subrange(0, 1) =~= base) by {
                    assert(q.subrange(0, 1)[0] == q[0]);
                    assert(base[0] == from);
                }
                assert(path_extends(self.edges_seq(), base, to, max_depth, q));
            }
        }
        Ok(results)
    }

    /// Depth-first enumeration of the simple paths that extend `path` to
    /// `target` using at most `remaining` more edges.  Restores `path` on
    /// return and appends only full paths to `results`.
    #[verifier::loop_isolation(false)]
    fn dfs_paths(
        &self,
        target: u128,
        remaining: usize,
        path: &mut Vec<u128>,
        results: &mut Vec<Vec<u128>>,
    )
        requires
            self.wf(),
            old(path)@.len() >= 1,
            path_partial(self.edges_seq(), old(path)@),
        ensures
            final(path)@ == old(path)@,
            final(results)@.len() >= old(results)@.len(),
            forall|p: int|
                0 <= p < old(results)@.len() ==> (#[trigger] final(results)@[p]) == old(
                    results,
                )@[p],
            forall|p: int|
                old(results)@.len() <= p < final(results)@.len() ==> path_extends(
                    self.edges_seq(),
                    old(path)@,
                    target,
                    remaining,
                    (#[trigger] final(results)@[p])@,
                ),
            forall|q: Seq<u128>|
                #[trigger] path_extends(self.edges_seq(), old(path)@, target, remaining, q)
                    ==> result_has(final(results)@, q),
        decreases remaining,
    {
        let ghost es = self.edges_seq();
        let ghost base = path@;
        let current: u128 = path[path.len() - 1];
        if current == target {
            let copy: Vec<u128> = path.clone();
            proof {
                assert(copy@ =~= base);
                assert(copy@ == base);
                assert(copy@.subrange(0, base.len() as int) =~= base);
            }
            results.push(copy);
            proof {
                // The base itself is the only simple extension that ends at
                // the target: any longer one would visit the target twice.
                assert forall|q: Seq<u128>|
                    #[trigger] path_extends(es, base, target, remaining, q) implies result_has(
                    results@,
                    q,
                ) by {
                    if q.len() > base.len() {
                        assert(q[base.len() - 1] == q.subrange(0, base.len() as int)[base.len()
                            - 1]);
                        assert(q[base.len() - 1] == base[base.len() - 1]);
                        assert(q[base.len() - 1] == target);
                        assert(q[q.len() - 1] == target);
                        assert(false);
                    } else {
                        assert(q =~= base) by {
                            assert forall|w: int| 0 <= w < q.len() implies q[w] == base[w] by {
                                assert(q.subrange(0, base.len() as int)[w] == q[w]);
                            }
                        }
                        assert(results@[results@.len() - 1]@ == q);
                    }
                }
            }
            return ;
        }
        if remaining == 0 {
            proof {
                assert forall|q: Seq<u128>|
                    #[trigger] path_extends(es, base, target, remaining, q) implies result_has(
                    results@,
                    q,
                ) by {
                    assert(q.len() <= base.len());
                    assert(q =~= base) by {
                        assert forall|w: int| 0 <= w < q.len() implies q[w] == base[w] by {
                            assert(q.subrange(0, base.len() as int)[w] == q[w]);
                        }
                    }
                    assert(base[base.len() - 1] == current);
                    assert(q[q.len() - 1] == target);
                    assert(false);
                }
            }
            return ;
        }
        let mut k: usize = 0;
        while k < self.edges.len()
            invariant
                path@ == base,
                base[base.len() - 1] == current,
                current != target,
                remaining >= 1,
                results@.len() >= old(results)@.len(),
                forall|p: int|
                    0 <= p < old(results)@.len() ==> (#[trigger] results@[p]) == old(
                        results,
                    )@[p],
                forall|p: int|
                    old(results)@.len() <= p < results@.len() ==> path_extends(
                        es,
                        base,
                        target,
                        remaining,
                        (#[trigger] results@[p])@,
                    ),
                forall|q: Seq<u128>|
                    #[trigger] path_extends(es, base, target, remaining, q) && q.len() > base.len()
                        && (exists|kk: int|
                        0 <= kk < k && (#[trigger] es[kk]).source_id == current && es[kk].target_id
                            == q[base.len() as int]) ==> result_has(results@, q),
            decreases es.len() - k,
        {
            let ghost results_before = results@;
            let e: &Edge = &self.edges[k];
            if e.source_id == current && !ids_contain(path, e.target_id) {
                path.push(e.target_id);
                proof {
                    assert(path@.drop_last() =~= base);
                    assert forall|i: int|
                        0 <= i < path@.len() - 1 implies path_step(es, path@, i) by {
                        if i < base.len() - 1 {
                            assert(path_step(es, base, i));
                            let w = choose|w: int|
                                0 <= w < es.len() && es[w].source_id == base[i] && es[w].target_id
                                    == base[i + 1];
                            assert(es[w].source_id == path@[i]);
                            assert(es[w].target_id == path@[i + 1]);
                        } else {
                            assert(es[k as int].source_id == path@[i]);
                            assert(es[k as int].target_id == path@[i + 1]);
                        }
                    }
                    assert forall|i: int, j: int|
                        0 <= i < j < path@.len() implies path@[i] != path@[j] by {
                        if j < path@.len() - 1 {
                            assert(path@[i] == base[i]);
                            assert(path@[j] == base[j]);
                        } else {
                            assert(path@[j] == es[k as int].target_id);
                            assert(!base.contains(es[k as int].target_id));
                            assert(path@[i] == base[i]);
                        }
                    }
                }
                let ghost bp = path@;
                self.dfs_paths(target, remaining - 1, path, results);
                path.pop();
                proof {
                    assert(path@ =~= base);
                    assert forall|p: int|
                        old(results)@.len() <= p < results@.len() implies path_extends(
                        es,
                        base,
                        target,
                        remaining,
                        (#[trigger] results@[p])@,
                    ) by {
                        if p < results_before.len() {
                            assert(results@[p] == results_before[p]);
                        } else {
                            let q = results@[p]@;
                            assert(path_extends(es, bp, target, (remaining - 1) as usize, q));
                            assert(q.subrange(0, bp.len() as int) == bp);
                            assert(q.subrange(0, base.len() as int) =~= base) by {
                                assert forall|w: int|
                                    0 <= w < base.len() implies q.subrange(
                                    0,
                                    base.len() as int,
                                )[w] == base[w] by {
                                    assert(q.subrange(0, bp.len() as int)[w] == bp[w]);
                                    assert(q[w] == bp[w]);
                                }
                            }
                        }
                    }
                    assert forall|q: Seq<u128>|
                        #[trigger] path_extends(es, base, target, remaining, q) && q.len()
                            > base.len() && (exists|kk: int|
                            0 <= kk < k + 1 && (#[trigger] es[kk]).source_id == current
                                && es[kk].target_id == q[base.len() as int]) implies result_has(
                        results@,
                        q,
                    ) by {
                        if q[base.len() as int] == es[k as int].target_id {
                            // The recursive call covered every extension
                            // through this target.
                            assert(q.subrange(0, bp.len() as int) =~= bp) by {
                                assert forall|w: int| 0 <= w < bp.len() implies q.subrange(
                                    0,
                                    bp.len() as int,
                                )[w] == bp[w] by {
                                    if w < base.len() {
                                        assert(q[w] == q.subrange(0, base.len() as int)[w]);
                                    }
                                }
                            }
                            assert(path_extends(es, bp, target, (remaining - 1) as usize, q));
                            assert(result_has(results@, q));
                        } else {
                            assert(exists|kk: int|
                                0 <= kk < k && (#[trigger] es[kk]).source_id == current
                                    && es[kk].target_id == q[base.len() as int]);
                            assert(result_has(results_before, q));
                            let p = choose|p: int|
                                0 <= p < results_before.len() && (#[trigger] results_before[p])@
                                    == q;
                            assert(results@[p]@ == q);
                        }
                    }
                }
            } else {
                proof {
                    assert forall|q: Seq<u128>|
                        #[trigger] path_extends(es, base, target, remaining, q) && q.len()
                            > base.len() && (exists|kk: int|
                            0 <= kk < k + 1 && (#[trigger] es[kk]).source_id == current
                                && es[kk].target_id == q[base.len() as int]) implies result_has(
                        results@,
                        q,
                    ) by {
                        if q[base.len() as int] == es[k as int].target_id && (es[k as int].source_id
                            == current) {
                            // The next node is already on the path, so no
                            // simple extension steps to it.
                            assert(base.contains(es[k as int].target_id));
                            let w = choose|w: int|
                                0 <= w < base.len() && base[w] == es[k as int].target_id;
                            assert(q[w] == q.subrange(0, base.len() as int)[w]);
                            assert(q[w] == q[base.len() as int]);
                            assert(false);
                        } else {
                            assert(exists|kk: int|
                                0 <= kk < k && (#[trigger] es[kk]).source_id == current
                                    && es[kk].target_id == q[base.len() as int]);
                        }
                    }
                }
            }
            k = k + 1;
        }
        proof {
            assert forall|q: Seq<u128>|
                #[trigger] path_extends(es, base, target, remaining, q) implies result_has(
                results@,
                q,
            ) by {
                assert(q.len() > base.len()) by {
                    if q.len() <= base.len() {
                        assert(q =~= base) by {
                            assert forall|w: int| 0 <= w < q.len() implies q[w] == base[w] by {
                                assert(q.subrange(0, base.len() as int)[w] == q[w]);
                            }
                        }
                        assert(q[q.len() - 1] == target);
                        assert(base[base.len() - 1] == current);
                    }
                }
                assert(q[base.len() - 1] == q.subrange(0, base.len() as int)[base.len() - 1]);
                assert(q[base.len() - 1] == current);
                assert(path_step(es, q, base.len() - 1));
                let kk = choose|kk: int|
                    0 <= kk < es.len() && (#[trigger] es[kk]).source_id == q[base.len() - 1]
                        && es[kk].target_id == q[base.len() as int];
                assert(es[kk].source_id == current && es[kk].target_id == q[base.len() as int]);
            }
        }
    }

    /// The subgraph discovered by an unfiltered traversal from a root: the
    /// distinct ids of exactly the nodes reachable within the depth, and
    /// the distinct ids of exactly the edges leaving nodes reachable
    /// strictly below it.  Fails with `NodeNotFound` exactly when the root
    /// is absent.
    #[verifier::loop_isolation(false)]
    pub fn subgraph(&self, root_id: u128, depth: usize) -> (r: OnyxResult<SubgraphResult>)
        requires
            self.wf(),
        ensures
            r is Ok <==> has_node(self.nodes_seq(), root_id),
            match r {
                Ok(s) => {
                    &&& (forall|i: int, j: int|
                        0 <= i < j < s.node_ids@.len() ==> s.node_ids@[i] != s.node_ids@[j])
                    &&& (forall|i: int, j: int|
                        0 <= i < j < s.edge_ids@.len() ==> s.edge_ids@[i] != s.edge_ids@[j])
                    &&& (forall|id: u128|
                        s.node_ids@.contains(id) <==> #[trigger] within_reach(
                            self.edges_seq(),
                            root_id,
                            depth,
                            id,
                        ))
                    &&& (forall|eid: u128|
                        s.edge_ids@.contains(eid) <==> #[trigger] reach_followable(
                            self.edges_seq(),
                            root_id,
                            depth,
                            eid,
                        ))
                },
                Err(e) => e matches OnyxError::NodeNotFound(q) && q == root_id,
            },
    {
        let ghost es = self.edges_seq();
        let t = match self.traverse(root_id, None, depth) {
            Ok(t) => t,
            Err(e) => {
                return Err(e);
            },
        };
        let ghost d = t.nodes@;
        let ghost fe = t.edges@;
        let mut node_ids: Vec<u128> = Vec::new();
        let mut i: usize = 0;
        while i < t.nodes.len()
            invariant
                0 <= i <= d.len(),
                t.nodes@ == d,
                node_ids@.len() == i,
                forall|a: int| 0 <= a < i ==> node_ids@[a] == d[a].0,
            decreases d.len() - i,
        {
            node_ids.push(t.nodes[i].0);
            i = i + 1;
        }
        let mut edge_ids: Vec<u128> = Vec::new();
        let mut j: usize = 0;
        while j < t.edges.len()
            invariant
                0 <= j <= fe.len(),
                t.edges@ == fe,
                edge_ids@.len() == j,
                forall|a: int| 0 <= a < j ==> edge_ids@[a] == fe[a],
            decreases fe.len() - j,
        {
            edge_ids.push(t.edges[j]);
            j = j + 1;
        }
        proof {
            let ghost fv = filter_view(None);
            assert(node_ids@ =~= disc_ids(d)) by {
                assert forall|a: int| 0 <= a < d.len() implies node_ids@[a] == disc_ids(d)[a] by {
                    assert(disc_ids(d)[a] == d[a].0);
                }
            }
            assert(edge_ids@ =~= fe);
            assert forall|a: int, b: int|
                0 <= a < b < node_ids@.len() implies node_ids@[a] != node_ids@[b] by {
                assert(node_ids@[a] == d[a].0 && node_ids@[b] == d[b].0);
            }
            assert forall|id: u128| node_ids@.contains(id) <==> #[trigger] within_reach(
                es,
                root_id,
                depth,
                id,
            ) by {
                if node_ids@.contains(id) {
                    let w = choose|w: int| 0 <= w < node_ids@.len() && node_ids@[w] == id;
                    assert(d[w].0 == id);
                    assert(reaches(es, fv, root_id, d[w].0, d[w].1 as nat));
                    assert(d[w].1 <= depth);
                    assert(within_reach(es, root_id, depth, id)) by {
                        assert(passes_all(es, root_id, depth, id, d[w].1 as nat));
                    }
                }
                if within_reach(es, root_id, depth, id) {
                    let k = choose|k: nat| #[trigger] passes_all(es, root_id, depth, id, k);
                    assert(reaches(es, fv, root_id, id, k) && k <= depth);
                    assert(disc_has_within(d, id, k as int));
                    let w = choose|w: int| 0 <= w < d.len() && (#[trigger] d[w]).0 == id && d[w].1 <= k as int;
                    assert(node_ids@[w] == id);
                }
            }
            assert forall|eid: u128| edge_ids@.contains(eid) <==> #[trigger] reach_followable(
                es,
                root_id,
                depth,
                eid,
            ) by {
                if edge_ids@.contains(eid) {
                    let x = choose|x: int| 0 <= x < fe.len() && fe[x] == eid;
                    assert(is_followable(es, fv, depth, d, fe[x]));
                    let (w, kk): (int, int) = choose|w: int, kk: int|
                        #![trigger d[w], es[kk]]
                        0 <= w < d.len() && 0 <= kk < es.len() && es[kk].id == fe[x]
                            && es[kk].source_id == d[w].0 && d[w].1 < depth && passes_filter(
                            fv,
                            es[kk].edge_type,
                        );
                    assert(reaches(es, fv, root_id, d[w].0, d[w].1 as nat));
                    assert(reach_followable(es, root_id, depth, eid)) by {
                        assert(edge_from_reachable(es, root_id, depth, eid, kk, d[w].1 as nat));
                    }
                }
                if reach_followable(es, root_id, depth, eid) {
                    let (kk, k): (int, nat) = choose|kk: int, k: nat|
                        #[trigger] edge_from_reachable(es, root_id, depth, eid, kk, k);
                    assert(reaches(es, fv, root_id, es[kk].source_id, k) && k < depth);
                    assert(disc_has_within(d, es[kk].source_id, k as int));
                    let w = choose|w: int|
                        0 <= w < d.len() && (#[trigger] d[w]).0 == es[kk].source_id && d[w].1
                            <= k as int;
                    assert(covered_upto(es, fv, depth, d, fe, d.len() as int, 0));
                    assert(d[w].1 < depth);
                    assert(passes_filter(fv, es[kk].edge_type));
                    assert(fe.contains(es[kk].id));
                    let x = choose|x: int| 0 <= x < fe.len() && fe[x] == es[kk].id;
                    assert(edge_ids@[x] == eid);
                }
            }
        }
        Ok(SubgraphResult { node_ids, edge_ids })
    }

    /// All nodes of a given type, in insertion order.
    #[verifier::loop_isolation(false)]
    pub fn nodes_by_type<'a>(&'a self, node_type: &NodeType) -> (r: Vec<&'a Node>)
        ensures
            ({
                let matching = self.nodes_seq().filter(|n: Node| n.node_type == *node_type);
                r@.len() == matching.len() && (forall|k: int|
                    0 <= k < r@.len() ==> *(#[trigger] r@[k]) == matching[k])
            }),
    {
        let ghost ns = self.nodes_seq();
        let ghost pred = |n: Node| n.node_type == *node_type;
        let mut r: Vec<&'a Node> = Vec::new();
        let mut i: usize = 0;
        proof {
            assert(ns.subrange(0, 0).filter(pred) =~= Seq::<Node>::empty());
        }
        while i < self.nodes.len()
            invariant
                0 <= i <= ns.len(),
                r@.len() == ns.subrange(0, i as int).filter(pred).len(),
                forall|k: int|
                    0 <= k < r@.len() ==> *(#[trigger] r@[k]) == ns.subrange(0, i as int).filter(
                        pred,
                    )[k],
            decreases ns.len() - i,
        {
            proof {
                assert(ns.subrange(0, i as int + 1) =~= ns.subrange(0, i as int).push(ns[i as int]));
                assert(ns.subrange(0, i as int + 1) == ns.subrange(0, i as int).push(ns[i as int]));
                lemma_filter_push(ns.subrange(0, i as int), pred, ns[i as int]);
            }
            if self.nodes[i].node_type == *node_type {
                r.push(&self.nodes[i]);
            }
            i = i + 1;
        }
        proof {
            assert(ns.subrange(0, ns.len() as int) =~= ns);
            assert(ns.subrange(0, ns.len() as int) == ns);
        }
        r
    }

    /// All edges of a given type, in insertion order.
    #[verifier::loop_isolation(false)]
    pub fn edges_by_type<'a>(&'a self, edge_type: &EdgeType) -> (r: Vec<&'a Edge>)
        ensures
            ({
                let matching = self.edges_seq().filter(|e: Edge| e.edge_type == *edge_type);
                r@.len() == matching.len() && (forall|k: int|
                    0 <= k < r@.len() ==> *(#[trigger] r@[k]) == matching[k])
            }),
    {
        let ghost es = self.edges_seq();
        let ghost pred = |e: Edge| e.edge_type == *edge_type;
        let mut r: Vec<&'a Edge> = Vec::new();
        let mut i: usize = 0;
        proof {
            assert(es.subrange(0, 0).filter(pred) =~= Seq::<Edge>::empty());
        }
        while i < self.edges.len()
            invariant
                0 <= i <= es.len(),
                r@.len() == es.subrange(0, i as int).filter(pred).len(),
                forall|k: int|
                    0 <= k < r@.len() ==> *(#[trigger] r@[k]) == es.subrange(0, i as int).filter(
                        pred,
                    )[k],
            decreases es.len() - i,
        {
            proof {
                assert(es.subrange(0, i as int + 1) =~= es.subrange(0, i as int).push(es[i as int]));
                assert(es.subrange(0, i as int + 1) == es.subrange(0, i as int).push(es[i as int]));
                lemma_filter_push(es.subrange(0, i as int), pred, es[i as int]);
            }
            if self.edges[i].edge_type == *edge_type {
                r.push(&self.edges[i]);
            }
            i = i + 1;
        }
        proof {
            assert(es.subrange(0, es.len() as int) =~= es);
            assert(es.subrange(0, es.len() as int) == es);
        }
        r
    }

    /// The edges touching a node whose temporal window contains the given
    /// instant, in insertion order.
    #[verifier::loop_isolation(false)]
    pub fn edges_at_time<'a>(&'a self, id: u128, timestamp: i64) -> (r: Vec<&'a Edge>)
        ensures
            ({
                let matching = self.edges_seq().filter(
                    |e: Edge| (e.source_id == id || e.target_id == id) && e.temporal.valid_at(
                        timestamp,
                    ),
                );
                r@.len() == matching.len() && (forall|k: int|
                    0 <= k < r@.len() ==> *(#[trigger] r@[k]) == matching[k])
            }),
    {
        let ghost es = self.edges_seq();
        let ghost pred = |e: Edge| (e.source_id == id || e.target_id == id)
            && e.temporal.valid_at(timestamp);
        let mut r: Vec<&'a Edge> = Vec::new();
        let mut i: usize = 0;
        proof {
            assert(es.subrange(0, 0).filter(pred) =~= Seq::<Edge>::empty());
        }
        while i < self.edges.len()
            invariant
                0 <= i <= es.len(),
                r@.len() == es.subrange(0, i as int).filter(pred).len(),
                forall|k: int|
                    0 <= k < r@.len() ==> *(#[trigger] r@[k]) == es.subrange(0, i as int).filter(
                        pred,
                    )[k],
            decreases es.len() - i,
        {
            proof {
                assert(es.subrange(0, i as int + 1) =~= es.subrange(0, i as int).push(es[i as int]));
                assert(es.subrange(0, i as int + 1) == es.subrange(0, i as int).push(es[i as int]));
                lemma_filter_push(es.subrange(0, i as int), pred, es[i as int]);
            }
            let e: &Edge = &self.edges[i];
            if (e.source_id == id || e.target_id == id) && e.temporal.is_valid_at(timestamp) {
                r.push(e);
            }
            i = i + 1;
        }
        proof {
            assert(es.subrange(0, es.len() as int) =~= es);
            assert(es.subrange(0, es.len() as int) == es);
        }
        r
    }

    /// All stored nodes, in insertion order.
    pub fn all_nodes<'a>(&'a self) -> (r: Vec<&'a Node>)
        ensures
            r@.len() == self.nodes_seq().len(),
            forall|k: int| 0 <= k < r@.len() ==> *(#[trigger] r@[k]) == self.nodes_seq()[k],
    {
        let mut r: Vec<&'a Node> = Vec::new();
        let mut i: usize = 0;
        while i < self.nodes.len()
            invariant
                0 <= i <= self.nodes_seq().len(),
                r@.len() == i,
                forall|k: int| 0 <= k < i ==> *(#[trigger] r@[k]) == self.nodes_seq()[k],
            decreases self.nodes_seq().len() - i,
        {
            r.push(&self.nodes[i]);
            i = i + 1;
        }
        r
    }

    /// The ids of all stored nodes, in insertion order.
    pub fn get_all_node_ids(&self) -> (r: Vec<u128>)
        ensures
            r@.len() == self.nodes_seq().len(),
            forall|k: int| 0 <= k < r@.len() ==> #[trigger] r@[k] == self.nodes_seq()[k].id,
    {
        let mut r: Vec<u128> = Vec::new();
        let mut i: usize = 0;
        while i < self.nodes.len()
            invariant
                0 <= i <= self.nodes_seq().len(),
                r@.len() == i,
                forall|k: int| 0 <= k < i ==> #[trigger] r@[k] == self.nodes_seq()[k].id,
            decreases self.nodes_seq().len() - i,
        {
            r.push(self.nodes[i].id);
            i = i + 1;
        }
        r
    }

    /// The ids of all stored edges, in insertion order.
    pub fn get_all_edge_ids(&self) -> (r: Vec<u128>)
        ensures
            r@.len() == self.edges_seq().len(),
            forall|k: int| 0 <= k < r@.len() ==> #[trigger] r@[k] == self.edges_seq()[k].id,
    {
        let mut r: Vec<u128> = Vec::new();
        let mut i: usize = 0;
        while i < self.edges.len()
            invariant
                0 <= i <= self.edges_seq().len(),
                r@.len() == i,
                forall|k: int| 0 <= k < i ==> #[trigger] r@[k] == self.edges_seq()[k].id,
            decreases self.edges_seq().len() - i,
        {
            r.push(self.edges[i].id);
            i = i + 1;
        }
        r
    }

    /// The `(id, source, target)` triples of all stored edges, in insertion
    /// order.
    pub fn edge_triples(&self) -> (r: Vec<(u128, u128, u128)>)
        ensures
            r@.len() == self.edges_seq().len(),
            forall|k: int|
                0 <= k < r@.len() ==> #[trigger] r@[k] == (
                    self.edges_seq()[k].id,
                    self.edges_seq()[k].source_id,
                    self.edges_seq()[k].target_id,
                ),
    {
        let mut r: Vec<(u128, u128, u128)> = Vec::new();
        let mut i: usize = 0;
        while i < self.edges.len()
            invariant
                0 <= i <= self.edges_seq().len(),
                r@.len() == i,
                forall|k: int|
                    0 <= k < i ==> #[trigger] r@[k] == (
                        self.edges_seq()[k].id,
                        self.edges_seq()[k].source_id,
                        self.edges_seq()[k].target_id,
                    ),
            decreases self.edges_seq().len() - i,
        {
            let e: &Edge = &self.edges[i];
            r.push((e.id, e.source_id, e.target_id));
            i = i + 1;
        }
        r
    }

    /// The number of stored nodes.
    pub fn node_count(&self) -> (r: usize)
        ensures
            r == self.nodes_seq().len(),
    {
        self.nodes.len()
    }

    /// The number of stored edges.
    pub fn edge_count(&self) -> (r: usize)
        ensures
            r == self.edges_seq().len(),
    {
        self.edges.len()
    }
}

} // verus!
