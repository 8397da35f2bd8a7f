//! The vector store: fixed-dimension embeddings with exact top-k cosine
//! similarity search.
//!
//! Components are fixed-point integers, so similarity is computed exactly:
//! the score of a pair is the cosine of their angle in thousandths, rounded
//! toward zero.  Search returns the best `k` entries by score, descending,
//! with ties broken by insertion order.

use vstd::prelude::*;
use crate::errors::{OnyxError, OnyxResult};

verus! {

/// The largest magnitude a vector component may have.
pub const COORD_BOUND: i64 = 262144;

/// The largest number of components a vector may have.
pub const DIM_LIMIT: usize = 65536;

/// One more than the largest possible floor square root of a norm product.
pub const SQRT_CEILING: u128 = 9223372036854775808;

/// Every component's magnitude is within the fixed-point range.
pub open spec fn coords_bounded(s: Seq<i64>) -> bool {
    forall|i: int| 0 <= i < s.len() ==> -COORD_BOUND <= #[trigger] s[i] <= COORD_BOUND
}

/// The dot product of two component sequences, over the shared prefix.
pub open spec fn spec_dot(a: Seq<i64>, b: Seq<i64>) -> int
    decreases a.len(),
{
    if a.len() == 0 || b.len() == 0 {
        0
    } else {
        a.last() * b.last() + spec_dot(a.drop_last(), b.drop_last())
    }
}

/// The floor of the square root of a natural number.
pub open spec fn isqrt_spec(n: nat) -> nat
    decreases n,
{
    if n == 0 {
        0
    } else {
        let r = isqrt_spec((n - 1) as nat);
        if (r + 1) * (r + 1) <= n {
            r + 1
        } else {
            r
        }
    }
}

/// Integer division rounding toward zero, for a positive divisor.
pub open spec fn trunc_div(x: int, y: int) -> int {
    if x >= 0 {
        x / y
    } else {
        -((-x) / y)
    }
}

/// The cosine similarity of two vectors in thousandths, rounded toward
/// zero; zero when either vector has zero norm.
pub open spec fn milli_cos(a: Seq<i64>, b: Seq<i64>) -> int {
    let d = spec_dot(a, b);
    let aa = spec_dot(a, a);
    let bb = spec_dot(b, b);
    if aa == 0 || bb == 0 {
        0
    } else {
        trunc_div(d * 1000, isqrt_spec((aa * bb) as nat) as int)
    }
}

// ---------------------------------------------------------------------------
// Arithmetic lemmas
// ---------------------------------------------------------------------------

/// The floor square root brackets its argument.
pub proof fn lemma_isqrt_bracket(n: nat)
    ensures
        isqrt_spec(n) * isqrt_spec(n) <= n,
        n < (isqrt_spec(n) + 1) * (isqrt_spec(n) + 1),
    decreases n,
{
    if n > 0 {
        lemma_isqrt_bracket((n - 1) as nat);
        let r = isqrt_spec((n - 1) as nat);
        assert(r * r <= n - 1);
        assert(n - 1 < (r + 1) * (r + 1));
        if (r + 1) * (r + 1) <= n {
            assert(isqrt_spec(n) == r + 1);
            assert((r + 1) * (r + 1) < (r + 2) * (r + 2)) by (nonlinear_arith)
                requires
                    r >= 0,
            ;
            assert(n <= (r + 1) * (r + 1));
            assert(n < (r + 2) * (r + 2));
        } else {
            assert(isqrt_spec(n) == r);
            assert(r * r <= n);
            assert(n < (r + 1) * (r + 1));
        }
    } else {
        assert(isqrt_spec(0nat) == 0);
        assert((isqrt_spec(n) + 1) * (isqrt_spec(n) + 1) == 1) by (nonlinear_arith)
            requires
                isqrt_spec(n) == 0,
        ;
    }
}

/// Any bracketing value is the floor square root.
pub proof fn lemma_isqrt_unique(n: nat, r: nat)
    requires
        r * r <= n,
        n < (r + 1) * (r + 1),
    ensures
        r == isqrt_spec(n),
{
    lemma_isqrt_bracket(n);
    let s = isqrt_spec(n);
    if r < s {
        assert((r + 1) * (r + 1) <= s * s) by (nonlinear_arith)
            requires
                r + 1 <= s,
        ;
    }
    if s < r {
        assert((s + 1) * (s + 1) <= r * r) by (nonlinear_arith)
            requires
                s + 1 <= r,
        ;
    }
}

/// A dot product of bounded sequences is bounded by the length times the
/// square of the component bound.
pub proof fn lemma_dot_bound(a: Seq<i64>, b: Seq<i64>)
    requires
        coords_bounded(a),
        coords_bounded(b),
    ensures
        -(a.len() * (COORD_BOUND as int) * (COORD_BOUND as int)) <= spec_dot(a, b) <= a.len() * (
        COORD_BOUND as int) * (COORD_BOUND as int),
    decreases a.len(),
{
    let big = (COORD_BOUND as int) * (COORD_BOUND as int);
    assert(big >= 0) by (nonlinear_arith)
        requires
            big == (COORD_BOUND as int) * (COORD_BOUND as int),
    ;
    if a.len() == 0 || b.len() == 0 {
        assert(a.len() * big >= 0) by (nonlinear_arith)
            requires
                big >= 0,
                a.len() >= 0,
        ;
    } else {
        let ad = a.drop_last();
        let bd = b.drop_last();
        assert(coords_bounded(ad) && coords_bounded(bd)) by {
            assert(forall|i: int| 0 <= i < ad.len() ==> ad[i] == a[i]);
            assert(forall|i: int| 0 <= i < bd.len() ==> bd[i] == b[i]);
        }
        lemma_dot_bound(ad, bd);
        assert(a.last() == a[a.len() - 1]);
        assert(b.last() == b[b.len() - 1]);
        assert(-big <= a.last() * b.last() <= big) by (nonlinear_arith)
            requires
                -COORD_BOUND <= a.last() <= COORD_BOUND,
                -COORD_BOUND <= b.last() <= COORD_BOUND,
                big == (COORD_BOUND as int) * (COORD_BOUND as int),
        ;
        assert(ad.len() * big + big == a.len() * big) by (nonlinear_arith)
            requires
                ad.len() == a.len() - 1,
        ;
    }
}

/// A dot product of a bounded sequence with itself is nonnegative, and zero
/// exactly when every component is zero.
pub proof fn lemma_self_dot_nonneg(a: Seq<i64>)
    ensures
        spec_dot(a, a) >= 0,
        spec_dot(a, a) == 0 <==> (forall|i: int| 0 <= i < a.len() ==> #[trigger] a[i] == 0),
    decreases a.len(),
{
    if a.len() > 0 {
        let ad = a.drop_last();
        lemma_self_dot_nonneg(ad);
        assert(a.last() * a.last() >= 0) by (nonlinear_arith);
        assert(a.last() * a.last() == 0 <==> a.last() == 0) by (nonlinear_arith);
        assert(forall|i: int| 0 <= i < ad.len() ==> ad[i] == a[i]);
        if spec_dot(a, a) == 0 {
            assert(a.last() == 0);
            assert forall|i: int| 0 <= i < a.len() implies #[trigger] a[i] == 0 by {
                if i < a.len() - 1 {
                    assert(ad[i] == 0);
                }
            }
        }
        if forall|i: int| 0 <= i < a.len() ==> #[trigger] a[i] == 0 {
            assert(a.last() == a[a.len() - 1]);
            assert forall|i: int| 0 <= i < ad.len() implies #[trigger] ad[i] == 0 by {
                assert(a[i] == 0);
            }
        }
    }
}

/// Extending both sequences by one component adds the product of the new
/// components to the dot product.
pub proof fn lemma_dot_push(a: Seq<i64>, b: Seq<i64>, x: i64, y: i64)
    requires
        a.len() == b.len(),
    ensures
        spec_dot(a.push(x), b.push(y)) == spec_dot(a, b) + x * y,
{
    assert(a.push(x).drop_last() =~= a);
    assert(b.push(y).drop_last() =~= b);
    if a.len() == 0 {
        assert(spec_dot(a.push(x), b.push(y)) == x * y + spec_dot(a, b));
    }
}

/// A vector similar to itself scores exactly one thousand, whenever it has
/// a nonzero component.
pub proof fn lemma_self_similarity(v: Seq<i64>)
    requires
        spec_dot(v, v) != 0,
    ensures
        milli_cos(v, v) == 1000,
{
    let q = spec_dot(v, v);
    lemma_self_dot_nonneg(v);
    assert(q > 0);
    assert(q * q <= q * q);
    assert(q * q < (q + 1) * (q + 1)) by (nonlinear_arith)
        requires
            q > 0,
    ;
    lemma_isqrt_unique((q * q) as nat, q as nat);
    assert(isqrt_spec((q * q) as nat) == q);
    assert((q * 1000) / q == 1000) by (nonlinear_arith)
        requires
            q > 0,
    ;
}

/// Ground facts relating the fixed-point range constants: products of
/// bounded dot products fit the machine integer types used below.
pub proof fn lemma_range_consts()
    ensures
        (DIM_LIMIT as int) * ((COORD_BOUND as int) * (COORD_BOUND as int)) == 0x10000000000000,
        0x10000000000000int * 0x10000000000000int < (SQRT_CEILING as int) * (SQRT_CEILING as int),
        0x10000000000000int * 1000 < i64::MAX,
        0x10000000000000int * 1000 < u128::MAX,
{
    assert((COORD_BOUND as int) * (COORD_BOUND as int) == 0x1000000000) by (nonlinear_arith);
    assert((DIM_LIMIT as int) * 0x1000000000int == 0x10000000000000) by (nonlinear_arith);
    assert(0x10000000000000int * 0x10000000000000int == 0x100000000000000000000000000)
        by (nonlinear_arith);
    assert((SQRT_CEILING as int) * (SQRT_CEILING as int)
        == 0x40000000000000000000000000000000) by (nonlinear_arith);
}

/// Law: when the query is itself a stored vector with a nonzero component,
/// the best hit of a search for it scores the full one thousand: the store's
/// own copy scores one thousand exactly, and `search` promises its first
/// entry scores at least as high as every stored vector.  (Which id comes
/// first is fixed only up to ties: a second stored vector with the same
/// direction, inserted earlier, wins the tie-break.)
pub proof fn lemma_self_query_tops(
    entries: Seq<(u128, Vec<i64>)>,
    j: int,
    out: Seq<(u128, i64)>,
)
    requires
        0 <= j < entries.len(),
        spec_dot(entries[j].1@, entries[j].1@) != 0,
        out.len() > 0,
        forall|k: int|
            0 <= k < entries.len() ==> out[0].1 >= milli_cos(
                entries[j].1@,
                (#[trigger] entries[k]).1@,
            ),
    ensures
        out[0].1 >= 1000,
{
    lemma_self_similarity(entries[j].1@);
}

// ---------------------------------------------------------------------------
// Exact executable arithmetic
// ---------------------------------------------------------------------------

/// The floor square root of a 128-bit value, by bisection.
#[verifier::loop_isolation(false)]
pub fn isqrt_u128(n: u128) -> (r: u128)
    requires
        (n as int) < (SQRT_CEILING as int) * (SQRT_CEILING as int),
    ensures
        r as nat == isqrt_spec(n as nat),
{
    if n == 0 {
        proof {
            assert(isqrt_spec(0) == 0);
        }
        return 0;
    }
    let mut lo: u128 = 0;
    let mut hi: u128 = SQRT_CEILING;
    while hi - lo > 1
        invariant
            lo < hi,
            hi <= SQRT_CEILING,
            (lo as int) * (lo as int) <= n as int,
            (n as int) < (hi as int) * (hi as int),
        decreases hi - lo,
    {
        let mid: u128 = lo + (hi - lo) / 2;
        proof {
            assert(mid as int * mid as int <= (SQRT_CEILING as int) * (SQRT_CEILING as int))
                by (nonlinear_arith)
                requires
                    0 <= mid as int <= SQRT_CEILING as int,
            ;
        }
        let sq: u128 = mid * mid;
        if sq <= n {
            lo = mid;
        } else {
            hi = mid;
        }
    }
    proof {
        assert(hi == lo + 1);
        lemma_isqrt_unique(n as nat, lo as nat);
    }
    lo
}

/// The exact dot product of two bounded vectors.
#[verifier::loop_isolation(false)]
pub fn dot(a: &Vec<i64>, b: &Vec<i64>) -> (r: i64)
    requires
        a@.len() == b@.len(),
        a@.len() <= DIM_LIMIT,
        coords_bounded(a@),
        coords_bounded(b@),
    ensures
        r == spec_dot(a@, b@),
{
    let ghost big = (COORD_BOUND as int) * (COORD_BOUND as int);
    proof {
        assert(big >= 0) by (nonlinear_arith)
            requires
                big == (COORD_BOUND as int) * (COORD_BOUND as int),
        ;
    }
    let mut acc: i64 = 0;
    let mut i: usize = 0;
    proof {
        assert(a@.subrange(0, 0) =~= Seq::<i64>::empty());
        assert(b@.subrange(0, 0) =~= Seq::<i64>::empty());
    }
    while i < a.len()
        invariant
            0 <= i <= a@.len(),
            acc == spec_dot(a@.subrange(0, i as int), b@.subrange(0, i as int)),
            -(i as int * big) <= acc as int <= i as int * big,
        decreases a@.len() - i,
    {
        proof {
            assert(a@.subrange(0, i as int + 1) =~= a@.subrange(0, i as int).push(a@[i as int]));
            assert(b@.subrange(0, i as int + 1) =~= b@.subrange(0, i as int).push(b@[i as int]));
            lemma_dot_push(a@.subrange(0, i as int), b@.subrange(0, i as int), a@[i as int], b@[i as int]);
            assert(-big <= a@[i as int] * b@[i as int] <= big) by (nonlinear_arith)
                requires
                    -COORD_BOUND <= a@[i as int] <= COORD_BOUND,
                    -COORD_BOUND <= b@[i as int] <= COORD_BOUND,
                    big == (COORD_BOUND as int) * (COORD_BOUND as int),
            ;
            assert((i as int + 1) * big == i as int * big + big) by (nonlinear_arith);
            assert(i as int * big <= DIM_LIMIT as int * big) by (nonlinear_arith)
                requires
                    0 <= i as int <= DIM_LIMIT as int,
                    big >= 0,
            ;
            lemma_range_consts();
            assert(DIM_LIMIT as int * big == (DIM_LIMIT as int) * ((COORD_BOUND as int) * (
            COORD_BOUND as int)));
        }
        let p: i64 = a[i] * b[i];
        acc = acc + p;
        i = i + 1;
    }
    proof {
        assert(a@.subrange(0, a@.len() as int) =~= a@);
        assert(b@.subrange(0, b@.len() as int) =~= b@);
    }
    acc
}

/// The exact cosine similarity of two bounded vectors, in thousandths,
/// rounded toward zero.
#[verifier::loop_isolation(false)]
pub fn cosine_milli(a: &Vec<i64>, b: &Vec<i64>) -> (r: i64)
    requires
        a@.len() == b@.len(),
        a@.len() <= DIM_LIMIT,
        coords_bounded(a@),
        coords_bounded(b@),
    ensures
        r == milli_cos(a@, b@),
{
    let ghost big = (COORD_BOUND as int) * (COORD_BOUND as int);
    let d: i64 = dot(a, b);
    let aa: i64 = dot(a, a);
    let bb: i64 = dot(b, b);
    proof {
        lemma_self_dot_nonneg(a@);
        lemma_self_dot_nonneg(b@);
        lemma_dot_bound(a@, b@);
        lemma_dot_bound(a@, a@);
        lemma_dot_bound(b@, b@);
    }
    if aa == 0 || bb == 0 {
        return 0;
    }
    proof {
        lemma_range_consts();
        assert(aa as int * bb as int <= (DIM_LIMIT as int * big) * (DIM_LIMIT as int * big))
            by (nonlinear_arith)
            requires
                0 < aa as int <= DIM_LIMIT as int * big,
                0 < bb as int <= DIM_LIMIT as int * big,
        ;
        assert(aa as int * bb as int > 0) by (nonlinear_arith)
            requires
                aa as int > 0,
                bb as int > 0,
        ;
    }
    let prod: u128 = (aa as u128) * (bb as u128);
    let s: u128 = isqrt_u128(prod);
    proof {
        lemma_isqrt_bracket(prod as nat);
        assert(s as int > 0) by {
            if s as int == 0 {
                assert((s as int + 1) * (s as int + 1) == 1) by (nonlinear_arith)
                    requires
                        s as int == 0,
                ;
            }
        }
    }
    let neg: bool = d < 0;
    let mag: u128 = if neg {
        (-(d as i128)) as u128
    } else {
        d as u128
    };
    let val: u128 = (mag * 1000) / s;
    proof {
        assert(mag as int == if d < 0 {
            -(d as int)
        } else {
            d as int
        });
        assert(mag as int * 1000 <= (DIM_LIMIT as int * big) * 1000) by (nonlinear_arith)
            requires
                0 <= mag as int <= DIM_LIMIT as int * big,
        ;
        assert((DIM_LIMIT as int * big) * 1000 == 0x10000000000000int * 1000);
        assert(val as int == (mag as int * 1000) / (s as int));
        assert(val as int <= mag as int * 1000) by {
            assert((mag as int * 1000) / (s as int) <= mag as int * 1000) by (nonlinear_arith)
                requires
                    s as int >= 1,
                    mag as int * 1000 >= 0,
            ;
        }
    }
    if neg {
        -(val as i64)
    } else {
        val as i64
    }
}


// ---------------------------------------------------------------------------
// The store
// ---------------------------------------------------------------------------

/// Whether some entry in the table carries the given id.
pub open spec fn has_emb(s: Seq<(u128, Vec<i64>)>, id: u128) -> bool {
    exists|i: int| 0 <= i < s.len() && s[i].0 == id
}

/// The index of the entry carrying the given id.
pub open spec fn emb_idx(s: Seq<(u128, Vec<i64>)>, id: u128) -> int {
    choose|i: int| 0 <= i < s.len() && s[i].0 == id
}

/// The entry carrying the given id.
pub open spec fn emb_with(s: Seq<(u128, Vec<i64>)>, id: u128) -> (u128, Vec<i64>) {
    s[emb_idx(s, id)]
}

/// Whether a search result already names an id.
pub open spec fn returned(out: Seq<(u128, i64)>, id: u128) -> bool {
    exists|w: int| 0 <= w < out.len() && out[w].0 == id
}

/// The position of the scored entry carrying the given id.
pub open spec fn sidx(s: Seq<(u128, i64)>, id: u128) -> int {
    choose|i: int| 0 <= i < s.len() && s[i].0 == id
}

/// An in-memory vector store: embeddings keyed by node id, all sharing one
/// dimensionality fixed at opening or by the first insert.
#[derive(Debug)]
pub struct VectorStore {
    embeddings: Vec<(u128, Vec<i64>)>,
    dimensions: Option<usize>,
}

impl VectorStore {
    /// The embedding table, in insertion order.
    pub closed spec fn entries(&self) -> Seq<(u128, Vec<i64>)> {
        self.embeddings@
    }

    /// The fixed dimensionality, if one has been established.
    pub closed spec fn dims(&self) -> Option<usize> {
        self.dimensions
    }

    /// The store's invariant: unique ids, a dimensionality as soon as any
    /// vector is stored, and every vector of that length with bounded
    /// components.
    pub open spec fn wf(&self) -> bool {
        &&& (forall|i: int, j: int|
            0 <= i < j < self.entries().len() ==> self.entries()[i].0 != self.entries()[j].0)
        &&& (self.dims() is None ==> self.entries().len() == 0)
        &&& match self.dims() {
            None => true,
            Some(d) => d <= DIM_LIMIT && (forall|i: int|
                0 <= i < self.entries().len() ==> (#[trigger] self.entries()[i]).1@.len() == d
                    && coords_bounded(self.entries()[i].1@)),
        }
    }

    /// An empty store whose dimensionality is fixed by the first insert.
    pub fn new() -> (r: Self)
        ensures
            r.wf(),
            r.entries().len() == 0,
            r.dims() is None,
    {
        VectorStore { embeddings: Vec::new(), dimensions: None }
    }

    /// An empty store with the dimensionality fixed up front.
    pub fn with_dimensions(dimensions: usize) -> (r: Self)
        requires
            dimensions <= DIM_LIMIT,
        ensures
            r.wf(),
            r.entries().len() == 0,
            r.dims() == Some(dimensions),
    {
        VectorStore { embeddings: Vec::new(), dimensions: Some(dimensions) }
    }

    /// Looks up the table index of an id.
    fn find_idx(&self, id: u128) -> (r: Option<usize>)
        ensures
            match r {
                Some(i) => i < self.entries().len() && self.entries()[i as int].0 == id,
                None => !has_emb(self.entries(), id),
            },
    {
        let mut i: usize = 0;
        while i < self.embeddings.len()
            invariant
                0 <= i <= self.entries().len(),
                forall|j: int| 0 <= j < i ==> self.entries()[j].0 != id,
            decreases self.entries().len() - i,
        {
            if self.embeddings[i].0 == id {
                return Some(i);
            }
            i = i + 1;
        }
        None
    }

    /// Inserts an embedding, overwriting any prior value under the same id.
    /// Fails with `DimensionMismatch` exactly when the store has a fixed
    /// dimensionality and the vector's length differs; a first insert into
    /// a store opened without one fixes it.
    pub fn insert(&mut self, id: u128, values: Vec<i64>) -> (r: OnyxResult<()>)
        requires
            old(self).wf(),
            values@.len() <= DIM_LIMIT,
            coords_bounded(values@),
        ensures
            final(self).wf(),
            match r {
                Ok(()) => {
                    &&& (old(self).dims() is Some ==> old(self).dims() == Some(values@.len() as usize))
                    &&& final(self).dims() == Some(values@.len() as usize)
                    &&& (has_emb(old(self).entries(), id) ==> final(self).entries() == old(
                        self,
                    ).entries().update(emb_idx(old(self).entries(), id), (id, values)))
                    &&& (!has_emb(old(self).entries(), id) ==> final(self).entries() == old(
                        self,
                    ).entries().push((id, values)))
                },
                Err(e) => e matches OnyxError::DimensionMismatch { expected, got }
                    && old(self).dims() == Some(expected) && got == values@.len()
                    && got != expected && final(self).entries() == old(self).entries()
                    && final(self).dims() == old(self).dims(),
            },
    {
        match self.dimensions {
            Some(d) => {
                if values.len() != d {
                    return Err(
                        OnyxError::DimensionMismatch { expected: d, got: values.len() },
                    );
                }
            },
            None => {
                self.dimensions = Some(values.len());
            },
        }
        let ghost es = self.entries();
        match self.find_idx(id) {
            Some(i) => {
                proof {
                    let w = emb_idx(es, id);
                    assert(es[w].0 == id);
                    assert(w == i);
                }
                self.embeddings.set(i, (id, values));
                Ok(())
            },
            None => {
                self.embeddings.push((id, values));
                Ok(())
            },
        }
    }

    /// Replaces an existing embedding.  Fails with `NodeNotFound` exactly
    /// when no embedding is stored under the id.
    pub fn update(&mut self, id: u128, values: Vec<i64>) -> (r: OnyxResult<()>)
        requires
            old(self).wf(),
            values@.len() <= DIM_LIMIT,
            coords_bounded(values@),
        ensures
            final(self).wf(),
            match r {
                Ok(()) => has_emb(old(self).entries(), id) && (old(self).dims() == Some(
                    values@.len() as usize,
                )) && final(self).entries() == old(self).entries().update(
                    emb_idx(old(self).entries(), id),
                    (id, values),
                ),
                Err(e) => final(self).entries() == old(self).entries() && final(self).dims()
                    == old(self).dims() && match e {
                    OnyxError::NodeNotFound(m) => m == id && !has_emb(old(self).entries(), id),
                    OnyxError::DimensionMismatch { expected, got } => old(self).dims() == Some(
                        expected,
                    ) && got == values@.len() && got != expected && has_emb(
                        old(self).entries(),
                        id,
                    ),
                    _ => false,
                },
            },
    {
        let ghost es = self.entries();
        match self.find_idx(id) {
            Some(i) => {
                proof {
                    let w = emb_idx(es, id);
                    assert(es[w].0 == id);
                    assert(w == i);
                }
                match self.dimensions {
                    Some(d) => {
                        if values.len() != d {
                            return Err(
                                OnyxError::DimensionMismatch { expected: d, got: values.len() },
                            );
                        }
                    },
                    None => {
                        proof {
                            assert(false);
                        }
                    },
                }
                self.embeddings.set(i, (id, values));
                Ok(())
            },
            None => Err(OnyxError::NodeNotFound(id)),
        }
    }

    /// Returns the embedding stored under an id, if any.
    pub fn get(&self, id: u128) -> (r: Option<&Vec<i64>>)
        requires
            self.wf(),
        ensures
            r is Some <==> has_emb(self.entries(), id),
            match r {
                Some(v) => *v == emb_with(self.entries(), id).1,
                None => true,
            },
    {
        match self.find_idx(id) {
            Some(i) => {
                proof {
                    let w = emb_idx(self.entries(), id);
                    assert(self.entries()[w].0 == id);
                    assert(w == i);
                }
                Some(&self.embeddings[i].1)
            },
            None => None,
        }
    }

    /// Removes the embedding stored under an id.  Removing an absent id
    /// changes nothing and still succeeds.
    pub fn delete(&mut self, id: u128) -> (r: OnyxResult<()>)
        requires
            old(self).wf(),
        ensures
            final(self).wf(),
            r is Ok,
            final(self).dims() == old(self).dims(),
            has_emb(old(self).entries(), id) ==> final(self).entries() == old(
                self,
            ).entries().remove(emb_idx(old(self).entries(), id)),
            !has_emb(old(self).entries(), id) ==> final(self).entries() == old(self).entries(),
            !has_emb(final(self).entries(), id),
    {
        let ghost es = self.entries();
        match self.find_idx(id) {
            Some(i) => {
                proof {
                    let w = emb_idx(es, id);
                    assert(es[w].0 == id);
                    assert(w == i);
                }
                self.embeddings.remove(i);
                proof {
                    let fes = self.entries();
                    assert(!has_emb(fes, id)) by {
                        if has_emb(fes, id) {
                            let w = choose|w: int| 0 <= w < fes.len() && fes[w].0 == id;
                            if w < i {
                                assert(es[w].0 == id);
                            } else {
                                assert(es[w + 1].0 == id);
                            }
                        }
                    }
                }
                Ok(())
            },
            None => Ok(()),
        }
    }

    /// The fixed dimensionality, if one has been established.
    pub fn dimensions(&self) -> (r: Option<usize>)
        ensures
            r == self.dims(),
    {
        self.dimensions
    }

    /// The number of stored embeddings.
    pub fn len(&self) -> (r: usize)
        ensures
            r == self.entries().len(),
    {
        self.embeddings.len()
    }

    /// Whether the store holds no embeddings.
    pub fn is_empty(&self) -> (r: bool)
        ensures
            r == (self.entries().len() == 0),
    {
        self.embeddings.len() == 0
    }

    /// The ids of all stored embeddings, in insertion order.
    pub fn get_all_embedding_ids(&self) -> (r: Vec<u128>)
        ensures
            r@.len() == self.entries().len(),
            forall|k: int| 0 <= k < r@.len() ==> #[trigger] r@[k] == self.entries()[k].0,
    {
        let mut r: Vec<u128> = Vec::new();
        let mut i: usize = 0;
        while i < self.embeddings.len()
            invariant
                0 <= i <= self.entries().len(),
                r@.len() == i,
                forall|k: int| 0 <= k < i ==> #[trigger] r@[k] == self.entries()[k].0,
            decreases self.entries().len() - i,
        {
            r.push(self.embeddings[i].0);
            i = i + 1;
        }
        r
    }

    /// Top-k cosine similarity search.  Fails with `DimensionMismatch`
    /// exactly when the store has a fixed dimensionality differing from the
    /// query's.  On success: the result holds `min(k, stored)` pairs of
    /// distinct stored ids with their exact scores, in non-increasing score
    /// order; no omitted stored vector scores above any returned entry; and
    /// ties are broken by insertion order, both among returned entries and
    /// against omitted ones.
    #[verifier::loop_isolation(false)]
    pub fn search(&self, query: &Vec<i64>, k: usize) -> (r: OnyxResult<Vec<(u128, i64)>>)
        requires
            self.wf(),
            query@.len() <= DIM_LIMIT,
            coords_bounded(query@),
        ensures
            r is Ok <==> (self.dims() is None || self.dims() == Some(query@.len() as usize)),
            match r {
                Ok(out) => {
                    &&& out@.len() == if k <= self.entries().len() {
                        k as int
                    } else {
                        self.entries().len() as int
                    }
                    &&& (forall|i: int, j: int|
                        0 <= i < j < out@.len() ==> (#[trigger] out@[i]).1 >= (#[trigger] out@[j]).1)
                    &&& (forall|i: int, j: int|
                        0 <= i < j < out@.len() ==> (#[trigger] out@[i]).0 != (#[trigger] out@[j]).0)
                    &&& (forall|i: int|
                        0 <= i < out@.len() ==> has_emb(self.entries(), (#[trigger] out@[i]).0)
                            && out@[i].1 == milli_cos(
                            query@,
                            emb_with(self.entries(), out@[i].0).1@,
                        ))
                    &&& (forall|j: int|
                        0 <= j < self.entries().len() && out@.len() > 0 ==> (#[trigger] out@[0]).1
                            >= milli_cos(query@, (#[trigger] self.entries()[j]).1@))
                    &&& (forall|i: int, j: int|
                        0 <= i < out@.len() && 0 <= j < self.entries().len() && !returned(
                            out@,
                            (#[trigger] self.entries()[j]).0,
                        ) ==> (#[trigger] out@[i]).1 >= milli_cos(query@, self.entries()[j].1@))
                    &&& (forall|i: int, j: int|
                        0 <= i < j < out@.len() ==> (#[trigger] out@[i]).1 > (
                        #[trigger] out@[j]).1 || emb_idx(self.entries(), out@[i].0) < emb_idx(
                            self.entries(),
                            out@[j].0,
                        ))
                    &&& (forall|i: int, j: int|
                        0 <= i < out@.len() && 0 <= j < self.entries().len() && !returned(
                            out@,
                            (#[trigger] self.entries()[j]).0,
                        ) ==> (#[trigger] out@[i]).1 > milli_cos(query@, self.entries()[j].1@)
                            || emb_idx(self.entries(), out@[i].0) < j)
                },
                Err(e) => e matches OnyxError::DimensionMismatch { expected, got } && self.dims()
                    == Some(expected) && got == query@.len() && got != expected,
            },
    {
        match self.dimensions {
            Some(d) => {
                if query.len() != d {
                    return Err(OnyxError::DimensionMismatch { expected: d, got: query.len() });
                }
            },
            None => {},
        }
        let ghost es = self.entries();

        // Exact score of every stored vector, in insertion order.
        let mut scores: Vec<(u128, i64)> = Vec::new();
        let mut i: usize = 0;
        while i < self.embeddings.len()
            invariant
                0 <= i <= es.len(),
                scores@.len() == i,
                forall|a: int|
                    0 <= a < i ==> (#[trigger] scores@[a]).0 == es[a].0 && scores@[a].1
                        == milli_cos(query@, es[a].1@),
            decreases es.len() - i,
        {
            let s: i64 = cosine_milli(query, &self.embeddings[i].1);
            scores.push((self.embeddings[i].0, s));
            i = i + 1;
        }
        let ghost scores0 = scores@;
        proof {
            assert forall|a: int, b: int|
                0 <= a < b < scores0.len() implies scores0[a].0 != scores0[b].0 by {
                assert(scores0[a].0 == es[a].0);
                assert(scores0[b].0 == es[b].0);
            }
            assert forall|a: int| 0 <= a < scores0.len() implies sidx(
                scores0,
                (#[trigger] scores0[a]).0,
            ) == a by {
                let y = sidx(scores0, scores0[a].0);
                assert(0 <= y < scores0.len() && scores0[y].0 == scores0[a].0) by {
                    assert(scores0[a].0 == scores0[a].0);
                }
            }
            assert forall|a: int| 0 <= a < scores0.len() implies emb_idx(
                es,
                (#[trigger] scores0[a]).0,
            ) == a by {
                let y = emb_idx(es, scores0[a].0);
                assert(0 <= y < es.len() && es[y].0 == scores0[a].0) by {
                    assert(es[a].0 == scores0[a].0);
                }
            }
        }

        // Stable selection of the k best: repeatedly move the first maximal
        // element of the remainder to the output.
        let kk: usize = if k <= scores.len() {
            k
        } else {
            scores.len()
        };
        let mut out: Vec<(u128, i64)> = Vec::new();
        let mut rest: Vec<(u128, i64)> = scores;
        proof {
            assert(rest@ == scores0);
            assert forall|a: int, b: int|
                0 <= a < b < rest@.len() implies sidx(scores0, (#[trigger] rest@[a]).0) < sidx(
                scores0,
                (#[trigger] rest@[b]).0,
            ) by {
                assert(sidx(scores0, scores0[a].0) == a);
                assert(sidx(scores0, scores0[b].0) == b);
            }
        }
        while out.len() < kk
            invariant
                kk <= scores0.len(),
                out@.len() + rest@.len() == scores0.len(),
                out@.len() <= kk,
                forall|a: int| 0 <= a < scores0.len() ==> sidx(scores0, (#[trigger] scores0[a]).0)
                    == a,
                forall|a: int, b: int| 0 <= a < b < out@.len() ==> out@[a].0 != out@[b].0,
                forall|a: int, b: int| 0 <= a < b < rest@.len() ==> rest@[a].0 != rest@[b].0,
                forall|a: int, b: int|
                    0 <= a < out@.len() && 0 <= b < rest@.len() ==> out@[a].0 != rest@[b].0,
                forall|a: int, b: int| 0 <= a < b < out@.len() ==> out@[a].1 >= out@[b].1,
                forall|a: int, b: int|
                    0 <= a < out@.len() && 0 <= b < rest@.len() ==> out@[a].1 >= rest@[b].1,
                forall|a: int| 0 <= a < out@.len() ==> scores0.contains(#[trigger] out@[a]),
                forall|a: int| 0 <= a < rest@.len() ==> scores0.contains(#[trigger] rest@[a]),
                forall|a: int|
                    0 <= a < scores0.len() ==> out@.contains(#[trigger] scores0[a])
                        || rest@.contains(#[trigger] scores0[a]),
                forall|a: int, b: int|
                    0 <= a < b < rest@.len() ==> sidx(scores0, (#[trigger] rest@[a]).0) < sidx(
                        scores0,
                        (#[trigger] rest@[b]).0,
                    ),
                forall|a: int, b: int|
                    0 <= a < out@.len() && 0 <= b < rest@.len() ==> (#[trigger] out@[a]).1 > (
                    #[trigger] rest@[b]).1 || sidx(scores0, out@[a].0) < sidx(scores0, rest@[b].0),
                forall|a: int, b: int|
                    0 <= a < b < out@.len() ==> (#[trigger] out@[a]).1 > (#[trigger] out@[b]).1
                        || sidx(scores0, out@[a].0) < sidx(scores0, out@[b].0),
            decreases kk - out.len(),
        {
            let mut best: usize = 0;
            let mut j: usize = 1;
            proof {
                assert(rest@.len() > 0);
            }
            while j < rest.len()
                invariant
                    0 <= best < j <= rest@.len(),
                    rest@.len() > 0,
                    forall|a: int| 0 <= a < j ==> rest@[best as int].1 >= (#[trigger] rest@[a]).1,
                    forall|a: int| 0 <= a < best ==> (#[trigger] rest@[a]).1 < rest@[best as int].1,
                decreases rest@.len() - j,
            {
                if rest[j].1 > rest[best].1 {
                    best = j;
                }
                j = j + 1;
            }
            let ghost rest_before = rest@;
            let item: (u128, i64) = rest.remove(best);
            proof {
                assert(item == rest_before[best as int]);
                assert(rest_before.contains(item)) by {
                    assert(rest_before[best as int] == item);
                }
                assert forall|a: int| 0 <= a < rest@.len() implies scores0.contains(
                    #[trigger] rest@[a],
                ) && rest@[a].1 <= item.1 && rest@[a].0 != item.0 && (item.1 > rest@[a].1 || sidx(
                    scores0,
                    item.0,
                ) < sidx(scores0, rest@[a].0)) by {
                    let orig: int = if a < best {
                        a
                    } else {
                        a + 1
                    };
                    assert(rest@[a] == rest_before[orig]);
                    if orig < best {
                        assert(rest_before[orig].1 < rest_before[best as int].1);
                    } else {
                        assert(sidx(scores0, rest_before[best as int].0) < sidx(
                            scores0,
                            rest_before[orig].0,
                        ));
                    }
                }
                assert forall|a: int, b: int|
                    0 <= a < b < rest@.len() implies sidx(scores0, (#[trigger] rest@[a]).0) < sidx(
                    scores0,
                    (#[trigger] rest@[b]).0,
                ) by {
                    let oa: int = if a < best {
                        a
                    } else {
                        a + 1
                    };
                    let ob: int = if b < best {
                        b
                    } else {
                        b + 1
                    };
                    assert(rest@[a] == rest_before[oa]);
                    assert(rest@[b] == rest_before[ob]);
                }
                assert forall|a: int|
                    0 <= a < scores0.len() implies out@.push(item).contains(#[trigger] scores0[a])
                        || rest@.contains(#[trigger] scores0[a]) by {
                    if out@.contains(scores0[a]) {
                        let w = choose|w: int| 0 <= w < out@.len() && out@[w] == scores0[a];
                        assert(out@.push(item)[w] == scores0[a]);
                    } else {
                        assert(rest_before.contains(scores0[a]));
                        let w = choose|w: int|
                            0 <= w < rest_before.len() && rest_before[w] == scores0[a];
                        if w == best {
                            assert(out@.push(item)[out@.len() as int] == item);
                        } else if w < best {
                            assert(rest@[w] == rest_before[w]);
                        } else {
                            assert(rest@[w - 1] == rest_before[w]);
                        }
                    }
                }
            }
            out.push(item);
        }
        proof {
            assert forall|a: int| 0 <= a < out@.len() implies has_emb(es, (#[trigger] out@[a]).0)
                && out@[a].1 == milli_cos(query@, emb_with(es, out@[a].0).1@) by {
                assert(scores0.contains(out@[a]));
                let w = choose|w: int| 0 <= w < scores0.len() && scores0[w] == out@[a];
                assert(es[w].0 == out@[a].0);
                assert(has_emb(es, out@[a].0)) by {
                    assert(es[w].0 == out@[a].0);
                }
                let x = emb_idx(es, out@[a].0);
                assert(es[x].0 == out@[a].0);
                assert(x == w);
            }
            assert forall|j2: int|
                0 <= j2 < es.len() && out@.len() > 0 implies (#[trigger] out@[0]).1 >= milli_cos(
                query@,
                (#[trigger] es[j2]).1@,
            ) by {
                assert(scores0[j2].1 == milli_cos(query@, es[j2].1@));
                if out@.contains(scores0[j2]) {
                    let w = choose|w: int| 0 <= w < out@.len() && out@[w] == scores0[j2];
                    if w > 0 {
                        assert(out@[0].1 >= out@[w].1);
                    }
                } else {
                    assert(rest@.contains(scores0[j2]));
                    let w = choose|w: int| 0 <= w < rest@.len() && rest@[w] == scores0[j2];
                    assert(out@[0].1 >= rest@[w].1);
                }
            }
            assert forall|i2: int, j2: int|
                0 <= i2 < out@.len() && 0 <= j2 < es.len() && !returned(
                    out@,
                    (#[trigger] es[j2]).0,
                ) implies (#[trigger] out@[i2]).1 >= milli_cos(query@, es[j2].1@) && (out@[i2].1
                > milli_cos(query@, es[j2].1@) || emb_idx(es, out@[i2].0) < j2) by {
                assert(scores0[j2].1 == milli_cos(query@, es[j2].1@));
                assert(!out@.contains(scores0[j2])) by {
                    if out@.contains(scores0[j2]) {
                        let w = choose|w: int| 0 <= w < out@.len() && out@[w] == scores0[j2];
                        assert(out@[w].0 == es[j2].0);
                    }
                }
                assert(rest@.contains(scores0[j2]));
                let w = choose|w: int| 0 <= w < rest@.len() && rest@[w] == scores0[j2];
                assert(out@[i2].1 >= rest@[w].1);
                assert(out@[i2].1 > rest@[w].1 || sidx(scores0, out@[i2].0) < sidx(
                    scores0,
                    rest@[w].0,
                ));
                assert(sidx(scores0, rest@[w].0) == j2);
                assert(scores0.contains(out@[i2]));
                let x = choose|x: int| 0 <= x < scores0.len() && scores0[x] == out@[i2];
                assert(sidx(scores0, out@[i2].0) == x);
                assert(emb_idx(es, out@[i2].0) == x);
            }
            assert forall|i2: int, j2: int|
                0 <= i2 < j2 < out@.len() implies (#[trigger] out@[i2]).1 > (
            #[trigger] out@[j2]).1 || emb_idx(es, out@[i2].0) < emb_idx(es, out@[j2].0) by {
                assert(out@[i2].1 > out@[j2].1 || sidx(scores0, out@[i2].0) < sidx(
                    scores0,
                    out@[j2].0,
                ));
                assert(scores0.contains(out@[i2]));
                let x = choose|x: int| 0 <= x < scores0.len() && scores0[x] == out@[i2];
                assert(sidx(scores0, out@[i2].0) == x);
                assert(emb_idx(es, out@[i2].0) == x);
                assert(scores0.contains(out@[j2]));
                let y = choose|y: int| 0 <= y < scores0.len() && scores0[y] == out@[j2];
                assert(sidx(scores0, out@[j2].0) == y);
                assert(emb_idx(es, out@[j2].0) == y);
            }
        }
        Ok(out)
    }
}

} // verus!
