//! The history store: per-entity version chains, content reconstruction,
//! branches and merges.
//!
//! Version identifiers are assigned by the store in recording order,
//! starting at one, so identifier order is recording order.  Every version
//! with a parent points at an earlier version of the same entity, which
//! makes every chain finite and rooted.  The branch-head index always names
//! the latest-timestamped version of its `(entity, branch)` pair, with ties
//! broken toward the later recording.

use vstd::prelude::*;
use vstd::string::StringExecFns;
use crate::errors::{OnyxError, OnyxResult};
use crate::external::str_eq;
use crate::model::{Branch, Diff, VersionEntry};

verus! {

// ---------------------------------------------------------------------------
// Spec-level view
// ---------------------------------------------------------------------------

/// A version id is valid for a table of the given length.
pub open spec fn valid_vid(vs: Seq<VersionEntry>, vid: u64) -> bool {
    1 <= vid <= vs.len()
}

/// The entry recorded under a valid version id.
pub open spec fn ver(vs: Seq<VersionEntry>, vid: u64) -> VersionEntry {
    vs[vid - 1]
}

/// Version `a` precedes version `b` in the `(timestamp, id)` order.
pub open spec fn ver_le(a: VersionEntry, b: VersionEntry) -> bool {
    a.timestamp < b.timestamp || (a.timestamp == b.timestamp && a.version_id <= b.version_id)
}

/// The content a diff leaves behind, given the content before it.
pub open spec fn apply_diff_spec(c: Seq<char>, d: Diff) -> Seq<char>
    decreases d,
{
    match d {
        Diff::Initial { content } => content@,
        Diff::ContentChanged { patch, .. } => patch@,
        Diff::MetadataChanged { .. } => c,
        Diff::Composite(ds) => apply_diff_list(c, ds@),
    }
}

/// Applies each diff of a sequence in order.
pub open spec fn apply_diff_list(c: Seq<char>, ds: Seq<Diff>) -> Seq<char>
    decreases ds,
{
    if ds.len() == 0 {
        c
    } else {
        apply_diff_spec(apply_diff_list(c, ds.drop_last()), ds.last())
    }
}

/// The content of an entity at a version: the diffs along the parent chain,
/// applied from the root forward.
pub open spec fn chain_content(vs: Seq<VersionEntry>, vid: u64) -> Seq<char>
    decreases vid,
{
    if !valid_vid(vs, vid) {
        Seq::empty()
    } else {
        let v = ver(vs, vid);
        match v.parent_version {
            None => apply_diff_spec(Seq::empty(), v.diff),
            Some(p) => if p < vid {
                apply_diff_spec(chain_content(vs, p), v.diff)
            } else {
                Seq::empty()
            },
        }
    }
}

/// Whether the branch-head table has an entry for an `(entity, branch)` pair.
pub open spec fn has_head(hs: Seq<(u128, String, u64)>, entity: u128, branch: Seq<char>) -> bool {
    exists|i: int| 0 <= i < hs.len() && hs[i].0 == entity && hs[i].1@ == branch
}

/// The head version recorded for an `(entity, branch)` pair.
pub open spec fn head_of(hs: Seq<(u128, String, u64)>, entity: u128, branch: Seq<char>) -> u64 {
    hs[choose|i: int| 0 <= i < hs.len() && hs[i].0 == entity && hs[i].1@ == branch].2
}

/// Whether a branch table holds a branch of the given name.
pub open spec fn has_branch(bs: Seq<Branch>, name: Seq<char>) -> bool {
    exists|i: int| 0 <= i < bs.len() && bs[i].name@ == name
}

/// The index of the branch of the given name.
pub open spec fn branch_idx(bs: Seq<Branch>, name: Seq<char>) -> int {
    choose|i: int| 0 <= i < bs.len() && bs[i].name@ == name
}

// ---------------------------------------------------------------------------
// The store
// ---------------------------------------------------------------------------

/// An in-memory history store: an append-only version table, a branch
/// table, and the branch-head index.
#[derive(Debug)]
pub struct HistoryStore {
    versions: Vec<VersionEntry>,
    branches: Vec<Branch>,
    branch_heads: Vec<(u128, String, u64)>,
}

impl HistoryStore {
    /// The version table, in recording order; entry `i` carries id `i + 1`.
    pub closed spec fn versions_seq(&self) -> Seq<VersionEntry> {
        self.versions@
    }

    /// The branch table, in creation order.
    pub closed spec fn branches_seq(&self) -> Seq<Branch> {
        self.branches@
    }

    /// The branch-head index.
    pub closed spec fn heads_seq(&self) -> Seq<(u128, String, u64)> {
        self.branch_heads@
    }

    /// The store's invariant.  Version ids equal one plus the recording
    /// index; a parent is an earlier version of the same entity; branch
    /// names are unique and their head and base ids valid; the head index
    /// has one entry per recorded `(entity, branch)` pair, naming its
    /// latest version in the `(timestamp, id)` order.
    pub open spec fn wf(&self) -> bool {
        let vs = self.versions_seq();
        let bs = self.branches_seq();
        let hs = self.heads_seq();
        &&& (forall|i: int| 0 <= i < vs.len() ==> (#[trigger] vs[i]).version_id == i + 1)
        &&& (forall|i: int|
            0 <= i < vs.len() ==> match (#[trigger] vs[i]).parent_version {
                Some(p) => 1 <= p <= i && vs[p - 1].entity_id == vs[i].entity_id,
                None => true,
            })
        &&& (forall|i: int, j: int| 0 <= i < j < bs.len() ==> bs[i].name@ != bs[j].name@)
        &&& (forall|i: int|
            0 <= i < bs.len() ==> valid_vid(vs, (#[trigger] bs[i]).head) && valid_vid(
                vs,
                bs[i].base,
            ))
        &&& (forall|i: int, j: int|
            0 <= i < j < hs.len() ==> !(hs[i].0 == hs[j].0 && hs[i].1@ == hs[j].1@))
        &&& (forall|i: int|
            0 <= i < hs.len() ==> valid_vid(vs, (#[trigger] hs[i]).2) && ver(vs, hs[i].2).entity_id
                == hs[i].0 && ver(vs, hs[i].2).branch@ == hs[i].1@)
        &&& (forall|i: int, k: int|
            0 <= i < hs.len() && 0 <= k < vs.len() && (#[trigger] vs[k]).entity_id == (
            #[trigger] hs[i]).0 && vs[k].branch@ == hs[i].1@ ==> ver_le(vs[k], ver(vs, hs[i].2)))
        &&& (forall|k: int|
            0 <= k < vs.len() ==> has_head(hs, (#[trigger] vs[k]).entity_id, vs[k].branch@))
    }

    /// An empty store.
    pub fn new() -> (r: Self)
        ensures
            r.wf(),
            r.versions_seq().len() == 0,
            r.branches_seq().len() == 0,
            r.heads_seq().len() == 0,
    {
        HistoryStore { versions: Vec::new(), branches: Vec::new(), branch_heads: Vec::new() }
    }

    /// The number of recorded versions.
    pub fn version_count(&self) -> (r: usize)
        ensures
            r == self.versions_seq().len(),
    {
        self.versions.len()
    }

    /// The entity of each recorded version, in recording order.
    pub fn entity_ids(&self) -> (r: Vec<u128>)
        ensures
            r@.len() == self.versions_seq().len(),
            forall|k: int|
                0 <= k < r@.len() ==> #[trigger] r@[k] == self.versions_seq()[k].entity_id,
    {
        let mut r: Vec<u128> = Vec::new();
        let mut i: usize = 0;
        while i < self.versions.len()
            invariant
                0 <= i <= self.versions_seq().len(),
                r@.len() == i,
                forall|k: int|
                    0 <= k < i ==> #[trigger] r@[k] == self.versions_seq()[k].entity_id,
            decreases self.versions_seq().len() - i,
        {
            r.push(self.versions[i].entity_id);
            i = i + 1;
        }
        r
    }

    /// Looks up the head-index position of an `(entity, branch)` pair.
    fn find_head_idx(&self, entity: u128, branch: &str) -> (r: Option<usize>)
        ensures
            match r {
                Some(i) => i < self.heads_seq().len() && self.heads_seq()[i as int].0 == entity
                    && self.heads_seq()[i as int].1@ == branch@,
                None => !has_head(self.heads_seq(), entity, branch@),
            },
    {
        let mut i: usize = 0;
        while i < self.branch_heads.len()
            invariant
                0 <= i <= self.heads_seq().len(),
                forall|j: int|
                    0 <= j < i ==> !((#[trigger] self.heads_seq()[j]).0 == entity
                        && self.heads_seq()[j].1@ == branch@),
            decreases self.heads_seq().len() - i,
        {
            if self.branch_heads[i].0 == entity && str_eq(self.branch_heads[i].1.as_str(), branch) {
                return Some(i);
            }
            i = i + 1;
        }
        None
    }

    /// Records a version: assigns it the next id, requires its parent (if
    /// any) to be an existing version of the same entity, and moves the
    /// `(entity, branch)` head to it unless the current head has a strictly
    /// later timestamp.  Returns the assigned id.  The entry's branch name
    /// is not checked against the branch table: recording under a merged
    /// branch's name is accepted, and the merge marker on the branch is
    /// advisory for readers.
    #[verifier::loop_isolation(false)]
    pub fn record_version(&mut self, entry: VersionEntry) -> (r: OnyxResult<u64>)
        requires
            old(self).wf(),
            old(self).versions_seq().len() < u64::MAX,
        ensures
            final(self).wf(),
            final(self).branches_seq() == old(self).branches_seq(),
            match r {
                Ok(vid) => {
                    &&& vid == old(self).versions_seq().len() + 1
                    &&& (match entry.parent_version {
                        Some(p) => valid_vid(old(self).versions_seq(), p) && ver(
                            old(self).versions_seq(),
                            p,
                        ).entity_id == entry.entity_id,
                        None => true,
                    })
                    &&& final(self).versions_seq() == old(self).versions_seq().push(
                        VersionEntry { version_id: vid, ..entry },
                    )
                    &&& has_head(final(self).heads_seq(), entry.entity_id, entry.branch@)
                },
                Err(e) => {
                    &&& final(self).versions_seq() == old(self).versions_seq()
                    &&& final(self).heads_seq() == old(self).heads_seq()
                    &&& (e matches OnyxError::VersionNotFound(p) && entry.parent_version == Some(p)
                        && !(valid_vid(old(self).versions_seq(), p) && ver(
                        old(self).versions_seq(),
                        p,
                    ).entity_id == entry.entity_id))
                },
            },
    {
        let ghost vs = self.versions_seq();
        let n: usize = self.versions.len();
        let vid: u64 = (n as u64) + 1;
        match entry.parent_version {
            Some(p) => {
                if p == 0 || p > n as u64 {
                    return Err(OnyxError::VersionNotFound(p));
                }
                if self.versions[(p - 1) as usize].entity_id != entry.entity_id {
                    return Err(OnyxError::VersionNotFound(p));
                }
            },
            None => {},
        }
        let entity: u128 = entry.entity_id;
        let branch_name: String = entry.branch.clone();
        let timestamp: i64 = entry.timestamp;
        let stored = VersionEntry { version_id: vid, ..entry };
        self.versions.push(stored);
        let ghost vs2 = self.versions_seq();
        match self.find_head_idx(entity, branch_name.as_str()) {
            Some(i) => {
                let h: u64 = self.branch_heads[i].2;
                proof {
                    assert(valid_vid(vs, h));
                    assert(ver(vs2, h) == ver(vs, h));
                }
                if timestamp >= self.versions[(h - 1) as usize].timestamp {
                    let ghost hs = self.heads_seq();
                    self.branch_heads.set(i, (entity, branch_name, vid));
                    proof {
                        let hs2 = self.heads_seq();
                        assert forall|a: int, k: int|
                            0 <= a < hs2.len() && 0 <= k < vs2.len() && (#[trigger] vs2[k]).entity_id
                                == (#[trigger] hs2[a]).0 && vs2[k].branch@ == hs2[a].1@ implies ver_le(
                            vs2[k],
                            ver(vs2, hs2[a].2),
                        ) by {
                            if a == i {
                                if k < vs.len() {
                                    assert(vs2[k] == vs[k]);
                                    assert(ver_le(vs[k], ver(vs, h)));
                                }
                            } else {
                                assert(hs2[a] == hs[a]);
                                if k < vs.len() {
                                    assert(vs2[k] == vs[k]);
                                } else {
                                    assert(vs2[k] == stored);
                                    assert(!(stored.entity_id == hs[a].0 && stored.branch@
                                        == hs[a].1@));
                                }
                            }
                        }
                        assert forall|k: int|
                            0 <= k < vs2.len() implies has_head(
                            hs2,
                            (#[trigger] vs2[k]).entity_id,
                            vs2[k].branch@,
                        ) by {
                            if k < vs.len() {
                                assert(has_head(hs, vs[k].entity_id, vs[k].branch@));
                                let w = choose|w: int|
                                    0 <= w < hs.len() && hs[w].0 == vs[k].entity_id && hs[w].1@
                                        == vs[k].branch@;
                                if w == i {
                                    assert(hs2[i as int].0 == vs2[k].entity_id);
                                    assert(hs2[i as int].1@ == vs2[k].branch@);
                                } else {
                                    assert(hs2[w] == hs[w]);
                                }
                            } else {
                                assert(hs2[i as int].0 == vs2[k].entity_id);
                                assert(hs2[i as int].1@ == vs2[k].branch@);
                            }
                        }
                    }
                } else {
                    proof {
                        let hs2 = self.heads_seq();
                        assert forall|a: int, k: int|
                            0 <= a < hs2.len() && 0 <= k < vs2.len() && (#[trigger] vs2[k]).entity_id
                                == (#[trigger] hs2[a]).0 && vs2[k].branch@ == hs2[a].1@ implies ver_le(
                            vs2[k],
                            ver(vs2, hs2[a].2),
                        ) by {
                            if k < vs.len() {
                                assert(vs2[k] == vs[k]);
                            } else {
                                assert(vs2[k] == stored);
                                if a == i {
                                    assert(ver(vs2, hs2[a].2) == ver(vs, h));
                                } else {
                                    assert(!(stored.entity_id == hs2[a].0 && stored.branch@
                                        == hs2[a].1@));
                                }
                            }
                        }
                        assert forall|k: int|
                            0 <= k < vs2.len() implies has_head(
                            hs2,
                            (#[trigger] vs2[k]).entity_id,
                            vs2[k].branch@,
                        ) by {
                            if k < vs.len() {
                                assert(has_head(hs2, vs[k].entity_id, vs[k].branch@));
                            } else {
                                assert(hs2[i as int].0 == vs2[k].entity_id);
                                assert(hs2[i as int].1@ == vs2[k].branch@);
                            }
                        }
                    }
                }
            },
            None => {
                let ghost hs = self.heads_seq();
                self.branch_heads.push((entity, branch_name, vid));
                proof {
                    let hs2 = self.heads_seq();
                    assert forall|a: int, k: int|
                        0 <= a < hs2.len() && 0 <= k < vs2.len() && (#[trigger] vs2[k]).entity_id
                            == (#[trigger] hs2[a]).0 && vs2[k].branch@ == hs2[a].1@ implies ver_le(
                        vs2[k],
                        ver(vs2, hs2[a].2),
                    ) by {
                        if a < hs.len() {
                            assert(hs2[a] == hs[a]);
                            if k < vs.len() {
                                assert(vs2[k] == vs[k]);
                            } else {
                                assert(vs2[k] == stored);
                                assert(!(stored.entity_id == hs[a].0 && stored.branch@
                                    == hs[a].1@));
                            }
                        } else {
                            assert(hs2[a] == (entity, branch_name, vid));
                            if k < vs.len() {
                                assert(vs2[k] == vs[k]);
                                assert(!has_head(hs, vs[k].entity_id, vs[k].branch@)) by {
                                    if has_head(hs, vs[k].entity_id, vs[k].branch@) {
                                        assert(false);
                                    }
                                }
                                assert(has_head(hs, vs[k].entity_id, vs[k].branch@));
                            } else {
                                assert(vs2[k] == stored);
                                assert(ver(vs2, vid) == stored);
                            }
                        }
                    }
                    assert forall|k: int|
                        0 <= k < vs2.len() implies has_head(
                        hs2,
                        (#[trigger] vs2[k]).entity_id,
                        vs2[k].branch@,
                    ) by {
                        if k < vs.len() {
                            assert(has_head(hs, vs[k].entity_id, vs[k].branch@));
                            let w = choose|w: int|
                                0 <= w < hs.len() && hs[w].0 == vs[k].entity_id && hs[w].1@
                                    == vs[k].branch@;
                            assert(hs2[w] == hs[w]);
                        } else {
                            assert(hs2[hs.len() as int].0 == vs2[k].entity_id);
                            assert(hs2[hs.len() as int].1@ == vs2[k].branch@);
                        }
                    }
                }
            },
        }
        Ok(vid)
    }

    /// Returns the version recorded under an id, if any.
    pub fn get_version(&self, vid: u64) -> (r: Option<&VersionEntry>)
        requires
            self.wf(),
        ensures
            r is Some <==> valid_vid(self.versions_seq(), vid),
            match r {
                Some(v) => *v == ver(self.versions_seq(), vid) && v.version_id == vid,
                None => true,
            },
    {
        if vid >= 1 && vid <= self.versions.len() as u64 {
            Some(&self.versions[(vid - 1) as usize])
        } else {
            None
        }
    }

    /// The head version of an `(entity, branch)` pair, if any version has
    /// been recorded for it: the latest in `(timestamp, id)` order.
    pub fn get_head(&self, entity_id: u128, branch: &str) -> (r: Option<u64>)
        requires
            self.wf(),
        ensures
            r is Some <==> has_head(self.heads_seq(), entity_id, branch@),
            match r {
                Some(h) => h == head_of(self.heads_seq(), entity_id, branch@) && valid_vid(
                    self.versions_seq(),
                    h,
                ) && ver(self.versions_seq(), h).entity_id == entity_id && ver(
                    self.versions_seq(),
                    h,
                ).branch@ == branch@,
                None => true,
            },
    {
        match self.find_head_idx(entity_id, branch) {
            Some(i) => {
                proof {
                    let hs = self.heads_seq();
                    let w = choose|w: int|
                        0 <= w < hs.len() && hs[w].0 == entity_id && hs[w].1@ == branch@;
                    assert(w == i);
                }
                Some(self.branch_heads[i].2)
            },
            None => None,
        }
    }
}


// ---------------------------------------------------------------------------
// Content reconstruction
// ---------------------------------------------------------------------------

/// Applies one diff to a content string, as `apply_diff_spec` says.
#[verifier::loop_isolation(false)]
pub fn apply_diff(content: String, d: &Diff) -> (r: String)
    ensures
        r@ == apply_diff_spec(content@, *d),
    decreases *d,
{
    match d {
        Diff::Initial { content: c } => c.clone(),
        Diff::ContentChanged { patch, .. } => patch.clone(),
        Diff::MetadataChanged { .. } => content,
        Diff::Composite(ds) => {
            let mut acc: String = content;
            let mut i: usize = 0;
            proof {
                assert(ds@.subrange(0, 0) =~= Seq::<Diff>::empty());
            }
            while i < ds.len()
                invariant
                    0 <= i <= ds@.len(),
                    acc@ == apply_diff_list(content@, ds@.subrange(0, i as int)),
                    *d == Diff::Composite(*ds),
                decreases ds@.len() - i,
            {
                proof {
                    assert(decreases_to!(*d => self_composite_view(*d)@[i as int]));
                    assert(ds@.subrange(0, i as int + 1).drop_last() =~= ds@.subrange(0, i as int));
                    assert(ds@.subrange(0, i as int + 1).last() == ds@[i as int]);
                }
                acc = apply_diff(acc, &ds[i]);
                i = i + 1;
            }
            proof {
                assert(ds@.subrange(0, ds@.len() as int) =~= ds@);
            }
            acc
        },
    }
}

/// The list inside a composite diff.
pub open spec fn self_composite_view(d: Diff) -> Vec<Diff> {
    d->Composite_0
}

impl HistoryStore {
    /// Reconstructs the content of an entity at a version by walking the
    /// parent chain to its root and applying the diffs forward.  Fails with
    /// `VersionNotFound` when the version id is unknown and with `Internal`
    /// when the version belongs to another entity.
    #[verifier::loop_isolation(false)]
    pub fn get_content_at_version(&self, entity_id: u128, version_id: u64) -> (r: OnyxResult<
        String,
    >)
        requires
            self.wf(),
        ensures
            match r {
                Ok(s) => valid_vid(self.versions_seq(), version_id) && ver(
                    self.versions_seq(),
                    version_id,
                ).entity_id == entity_id && s@ == chain_content(self.versions_seq(), version_id),
                Err(e) => match e {
                    OnyxError::VersionNotFound(v) => v == version_id && !valid_vid(
                        self.versions_seq(),
                        version_id,
                    ),
                    OnyxError::Internal(_) => valid_vid(self.versions_seq(), version_id) && ver(
                        self.versions_seq(),
                        version_id,
                    ).entity_id != entity_id,
                    _ => false,
                },
            },
    {
        let ghost vs = self.versions_seq();
        let n: usize = self.versions.len();
        if version_id == 0 || version_id > n as u64 {
            return Err(OnyxError::VersionNotFound(version_id));
        }
        if self.versions[(version_id - 1) as usize].entity_id != entity_id {
            return Err(OnyxError::Internal(String::from_str(
                "version belongs to another entity",
            )));
        }
        // Walk the chain from the requested version back to its root.
        let mut chain: Vec<u64> = Vec::new();
        let mut current: u64 = version_id;
        let mut walking: bool = true;
        while walking
            invariant
                valid_vid(vs, version_id),
                forall|j: int| 0 <= j < chain@.len() ==> valid_vid(vs, #[trigger] chain@[j]),
                chain@.len() > 0 ==> chain@[0] == version_id,
                forall|j: int|
                    0 <= j < chain@.len() - 1 ==> ver(vs, #[trigger] chain@[j]).parent_version
                        == Some(chain@[j + 1]),
                walking ==> valid_vid(vs, current),
                walking && chain@.len() == 0 ==> current == version_id,
                walking && chain@.len() > 0 ==> ver(vs, chain@.last()).parent_version == Some(
                    current,
                ),
                !walking ==> chain@.len() > 0 && ver(vs, chain@.last()).parent_version is None,
            decreases current, if walking {
                1int
            } else {
                0int
            },
        {
            let ghost prev = chain@;
            chain.push(current);
            proof {
                assert(chain@.last() == current);
                assert forall|j: int|
                    0 <= j < chain@.len() - 1 implies ver(
                    vs,
                    #[trigger] chain@[j],
                ).parent_version == Some(chain@[j + 1]) by {
                    if j < prev.len() - 1 {
                        assert(chain@[j] == prev[j]);
                        assert(chain@[j + 1] == prev[j + 1]);
                    } else if prev.len() > 0 {
                        assert(chain@[j] == prev.last());
                    }
                }
            }
            match &self.versions[(current - 1) as usize].parent_version {
                Some(p) => {
                    proof {
                        assert(ver(vs, current).parent_version == Some(*p));
                        assert(1 <= *p < current);
                    }
                    current = *p;
                },
                None => {
                    walking = false;
                },
            }
        }
        // Apply the diffs from the root forward.
        let mut content: String = String::new();
        let mut i: usize = chain.len();
        while i > 0
            invariant
                0 <= i <= chain@.len(),
                chain@.len() > 0,
                chain@[0] == version_id,
                forall|j: int| 0 <= j < chain@.len() ==> valid_vid(vs, #[trigger] chain@[j]),
                forall|j: int|
                    0 <= j < chain@.len() - 1 ==> ver(vs, #[trigger] chain@[j]).parent_version
                        == Some(chain@[j + 1]),
                ver(vs, chain@.last()).parent_version is None,
                i == chain@.len() ==> content@ == Seq::<char>::empty(),
                i < chain@.len() ==> content@ == chain_content(vs, chain@[i as int]),
            decreases i,
        {
            let ghost c = chain@[i - 1];
            proof {
                if i == chain@.len() {
                    assert(chain@[i - 1] == chain@.last());
                    assert(ver(vs, c).parent_version is None);
                    assert(chain_content(vs, c) == apply_diff_spec(
                        Seq::<char>::empty(),
                        ver(vs, c).diff,
                    ));
                } else {
                    assert(ver(vs, c).parent_version == Some(chain@[i as int]));
                    let p = chain@[i as int];
                    assert(ver(vs, c) == vs[c - 1]);
                    assert(1 <= p <= c - 1);
                    assert(chain_content(vs, c) == apply_diff_spec(
                        chain_content(vs, p),
                        ver(vs, c).diff,
                    ));
                }
            }
            content = apply_diff(content, &self.versions[(chain[i - 1] - 1) as usize].diff);
            i = i - 1;
        }
        proof {
            assert(content@ == chain_content(vs, chain@[0]));
        }
        Ok(content)
    }
}


impl HistoryStore {
    /// All versions of an entity, ordered by `(timestamp, id)` ascending.
    /// The result holds exactly the entity's recorded versions.
    #[verifier::loop_isolation(false)]
    pub fn list_versions<'a>(&'a self, entity_id: u128) -> (r: Vec<&'a VersionEntry>)
        requires
            self.wf(),
        ensures
            forall|i: int|
                0 <= i < r@.len() ==> valid_vid(self.versions_seq(), (#[trigger] r@[i]).version_id)
                    && *r@[i] == ver(self.versions_seq(), r@[i].version_id) && r@[i].entity_id
                    == entity_id,
            forall|i: int, j: int|
                0 <= i < j < r@.len() ==> (#[trigger] r@[i]).version_id != (
                #[trigger] r@[j]).version_id,
            forall|i: int, j: int| 0 <= i < j < r@.len() ==> ver_le(*r@[i], *r@[j]),
            forall|k: int|
                0 <= k < self.versions_seq().len() && (#[trigger] self.versions_seq()[k]).entity_id
                    == entity_id ==> exists|i: int| 0 <= i < r@.len() && *r@[i]
                    == self.versions_seq()[k],
    {
        let ghost vs = self.versions_seq();
        let n: usize = self.versions.len();

        // Collect the table indices of the entity's versions.
        let mut rest: Vec<usize> = Vec::new();
        let mut k: usize = 0;
        while k < n
            invariant
                0 <= k <= n,
                n == vs.len(),
                forall|a: int| 0 <= a < rest@.len() ==> (#[trigger] rest@[a]) < k,
                forall|a: int, b: int| 0 <= a < b < rest@.len() ==> rest@[a] != rest@[b],
                forall|a: int|
                    0 <= a < rest@.len() ==> vs[(#[trigger] rest@[a]) as int].entity_id
                        == entity_id,
                forall|w: int|
                    0 <= w < k && (#[trigger] vs[w]).entity_id == entity_id ==> rest@.contains(
                        w as usize,
                    ),
                forall|a: int, b: int| 0 <= a < b < rest@.len() ==> rest@[a] < rest@[b],
            decreases n - k,
        {
            let ghost before = rest@;
            if self.versions[k].entity_id == entity_id {
                rest.push(k);
                proof {
                    assert forall|w: int|
                        0 <= w < k + 1 && (#[trigger] vs[w]).entity_id == entity_id implies rest@.contains(
                        w as usize,
                    ) by {
                        if w < k {
                            assert(before.contains(w as usize));
                            let x = choose|x: int| 0 <= x < before.len() && before[x] == w as usize;
                            assert(rest@[x] == w as usize);
                        } else {
                            assert(rest@[rest@.len() - 1] == k);
                        }
                    }
                }
            }
            k = k + 1;
        }
        let ghost all = rest@;

        // Repeatedly move the least remaining version, by (timestamp, id),
        // to the output.
        let mut sorted: Vec<usize> = Vec::new();
        while rest.len() > 0
            invariant
                n == vs.len(),
                forall|a: int| 0 <= a < rest@.len() ==> (#[trigger] rest@[a]) < n,
                forall|a: int| 0 <= a < sorted@.len() ==> (#[trigger] sorted@[a]) < n,
                forall|a: int, b: int| 0 <= a < b < rest@.len() ==> rest@[a] != rest@[b],
                forall|a: int, b: int| 0 <= a < b < sorted@.len() ==> sorted@[a] != sorted@[b],
                forall|a: int, b: int|
                    0 <= a < sorted@.len() && 0 <= b < rest@.len() ==> sorted@[a] != rest@[b],
                forall|a: int|
                    0 <= a < rest@.len() ==> vs[(#[trigger] rest@[a]) as int].entity_id
                        == entity_id,
                forall|a: int|
                    0 <= a < sorted@.len() ==> vs[(#[trigger] sorted@[a]) as int].entity_id
                        == entity_id,
                forall|a: int, b: int|
                    0 <= a < b < sorted@.len() ==> ver_le(
                        vs[sorted@[a] as int],
                        vs[sorted@[b] as int],
                    ),
                forall|a: int, b: int|
                    0 <= a < sorted@.len() && 0 <= b < rest@.len() ==> ver_le(
                        vs[sorted@[a] as int],
                        vs[rest@[b] as int],
                    ),
                forall|a: int| 0 <= a < all.len() ==> sorted@.contains(#[trigger] all[a])
                    || rest@.contains(#[trigger] all[a]),
                forall|a: int| 0 <= a < sorted@.len() ==> all.contains(#[trigger] sorted@[a]),
                forall|a: int| 0 <= a < rest@.len() ==> all.contains(#[trigger] rest@[a]),
            decreases rest@.len(),
        {
            let mut least: usize = 0;
            let mut j: usize = 1;
            while j < rest.len()
                invariant
                    0 <= least < j <= rest@.len(),
                    rest@.len() > 0,
                    forall|a: int| 0 <= a < rest@.len() ==> (#[trigger] rest@[a]) < n,
                    n == vs.len(),
                    forall|a: int|
                        0 <= a < j ==> ver_le(
                            vs[rest@[least as int] as int],
                            vs[(#[trigger] rest@[a]) as int],
                        ),
                decreases rest@.len() - j,
            {
                let a: &VersionEntry = &self.versions[rest[j]];
                let b: &VersionEntry = &self.versions[rest[least]];
                if a.timestamp < b.timestamp || (a.timestamp == b.timestamp && a.version_id
                    < b.version_id) {
                    least = j;
                }
                j = j + 1;
            }
            let ghost rest_before = rest@;
            let idx: usize = rest.remove(least);
            proof {
                assert(idx == rest_before[least as int]);
                assert(rest_before.contains(idx)) by {
                    assert(rest_before[least as int] == idx);
                }
                assert forall|a: int| 0 <= a < rest@.len() implies all.contains(
                    #[trigger] rest@[a],
                ) && rest@[a] != idx && ver_le(vs[idx as int], vs[rest@[a] as int]) && rest@[a]
                    < n && vs[rest@[a] as int].entity_id == entity_id by {
                    let orig: int = if a < least {
                        a
                    } else {
                        a + 1
                    };
                    assert(rest@[a] == rest_before[orig]);
                }
                assert forall|a: int, b: int|
                    0 <= a < b < rest@.len() implies rest@[a] != rest@[b] by {
                    let oa: int = if a < least {
                        a
                    } else {
                        a + 1
                    };
                    let ob: int = if b < least {
                        b
                    } else {
                        b + 1
                    };
                    assert(rest@[a] == rest_before[oa]);
                    assert(rest@[b] == rest_before[ob]);
                }
                assert forall|a: int|
                    0 <= a < all.len() implies sorted@.push(idx).contains(#[trigger] all[a])
                        || rest@.contains(#[trigger] all[a]) by {
                    if sorted@.contains(all[a]) {
                        let w = choose|w: int| 0 <= w < sorted@.len() && sorted@[w] == all[a];
                        assert(sorted@.push(idx)[w] == all[a]);
                    } else {
                        assert(rest_before.contains(all[a]));
                        let w = choose|w: int|
                            0 <= w < rest_before.len() && rest_before[w] == all[a];
                        if w == least {
                            assert(sorted@.push(idx)[sorted@.len() as int] == idx);
                        } else if w < least {
                            assert(rest@[w] == rest_before[w]);
                        } else {
                            assert(rest@[w - 1] == rest_before[w]);
                        }
                    }
                }
            }
            sorted.push(idx);
        }

        // Resolve the sorted indices into entries.
        let mut out: Vec<&'a VersionEntry> = Vec::new();
        let mut i: usize = 0;
        while i < sorted.len()
            invariant
                0 <= i <= sorted@.len(),
                out@.len() == i,
                n == vs.len(),
                forall|a: int| 0 <= a < sorted@.len() ==> (#[trigger] sorted@[a]) < n,
                forall|a: int| 0 <= a < i ==> *(#[trigger] out@[a]) == vs[sorted@[a] as int],
            decreases sorted@.len() - i,
        {
            out.push(&self.versions[sorted[i]]);
            i = i + 1;
        }
        proof {
            assert forall|i2: int| 0 <= i2 < out@.len() implies valid_vid(
                vs,
                (#[trigger] out@[i2]).version_id,
            ) && *out@[i2] == ver(vs, out@[i2].version_id) && out@[i2].entity_id == entity_id by {
                assert(*out@[i2] == vs[sorted@[i2] as int]);
                assert(vs[sorted@[i2] as int].version_id == sorted@[i2] + 1);
            }
            assert forall|a: int, b: int|
                0 <= a < b < out@.len() implies (#[trigger] out@[a]).version_id != (
            #[trigger] out@[b]).version_id by {
                assert(*out@[a] == vs[sorted@[a] as int]);
                assert(*out@[b] == vs[sorted@[b] as int]);
            }
            assert forall|k2: int|
                0 <= k2 < vs.len() && (#[trigger] vs[k2]).entity_id == entity_id implies exists|
                i2: int,
            | 0 <= i2 < out@.len() && *out@[i2] == vs[k2] by {
                assert(all.contains(k2 as usize));
                assert(sorted@.contains(k2 as usize));
                let w = choose|w: int| 0 <= w < sorted@.len() && sorted@[w] == k2 as usize;
                assert(*out@[w] == vs[k2]);
            }
        }
        out
    }

    /// The versions of an entity whose timestamps lie in the inclusive
    /// range, ordered by `(timestamp, id)` ascending.
    #[verifier::loop_isolation(false)]
    #[verifier::rlimit(50)]
    pub fn list_versions_in_range<'a>(&'a self, entity_id: u128, from: i64, to: i64) -> (r: Vec<
        &'a VersionEntry,
    >)
        requires
            self.wf(),
        ensures
            forall|i: int|
                0 <= i < r@.len() ==> valid_vid(self.versions_seq(), (#[trigger] r@[i]).version_id)
                    && *r@[i] == ver(self.versions_seq(), r@[i].version_id) && r@[i].entity_id
                    == entity_id && from <= r@[i].timestamp <= to,
            forall|i: int, j: int|
                0 <= i < j < r@.len() ==> (#[trigger] r@[i]).version_id != (
                #[trigger] r@[j]).version_id,
            forall|i: int, j: int| 0 <= i < j < r@.len() ==> ver_le(*r@[i], *r@[j]),
            forall|k: int|
                0 <= k < self.versions_seq().len() && (#[trigger] self.versions_seq()[k]).entity_id
                    == entity_id && from <= self.versions_seq()[k].timestamp <= to ==> exists|
                i: int,
            | 0 <= i < r@.len() && *r@[i] == self.versions_seq()[k],
    {
        let all = self.list_versions(entity_id);
        let ghost av = all@;
        let mut out: Vec<&'a VersionEntry> = Vec::new();
        let mut i: usize = 0;
        while i < all.len()
            invariant
                0 <= i <= av.len(),
                forall|a: int, b: int| 0 <= a < b < av.len() ==> ver_le(*av[a], *av[b]),
                forall|a: int, b: int|
                    0 <= a < b < av.len() ==> (#[trigger] av[a]).version_id != (
                    #[trigger] av[b]).version_id,
                forall|a: int|
                    0 <= a < out@.len() ==> exists|b: int|
                        0 <= b < i && *(#[trigger] out@[a]) == *av[b],
                forall|a: int|
                    0 <= a < out@.len() ==> from <= (#[trigger] out@[a]).timestamp <= to,
                forall|a: int, b: int| 0 <= a < b < out@.len() ==> ver_le(*out@[a], *out@[b]),
                forall|a: int, b: int|
                    0 <= a < b < out@.len() ==> (#[trigger] out@[a]).version_id != (
                    #[trigger] out@[b]).version_id,
                forall|b: int|
                    0 <= b < i && from <= (#[trigger] av[b]).timestamp <= to ==> exists|a: int|
                        0 <= a < out@.len() && *out@[a] == *av[b],
                forall|a: int|
                    0 <= a < out@.len() ==> valid_vid(
                        self.versions_seq(),
                        (#[trigger] out@[a]).version_id,
                    ) && *out@[a] == ver(self.versions_seq(), out@[a].version_id) && out@[a].entity_id
                        == entity_id,
            decreases av.len() - i,
        {
            let ghost out_before = out@;
            let v: &VersionEntry = all[i];
            if v.timestamp >= from && v.timestamp <= to {
                out.push(v);
                proof {
                    assert(*out@[out@.len() - 1] == *av[i as int]);
                    assert forall|a: int, b: int|
                        0 <= a < b < out@.len() implies ver_le(*out@[a], *out@[b]) by {
                        if b == out@.len() - 1 {
                            let w = choose|w: int|
                                0 <= w < i && *(#[trigger] out_before[a]) == *av[w];
                            assert(ver_le(*av[w], *av[i as int]));
                        }
                    }
                    assert forall|a: int, b: int|
                        0 <= a < b < out@.len() implies (#[trigger] out@[a]).version_id != (
                    #[trigger] out@[b]).version_id by {
                        if b == out@.len() - 1 {
                            let w = choose|w: int|
                                0 <= w < i && *(#[trigger] out_before[a]) == *av[w];
                            assert(av[w].version_id != av[i as int].version_id);
                        }
                    }
                    assert forall|b: int|
                        0 <= b < i + 1 && from <= (#[trigger] av[b]).timestamp <= to implies exists|
                        a: int,
                    | 0 <= a < out@.len() && *out@[a] == *av[b] by {
                        if b < i {
                            let w = choose|w: int|
                                0 <= w < out_before.len() && *out_before[w] == *av[b];
                            assert(*out@[w] == *av[b]);
                        } else {
                            assert(*out@[out@.len() - 1] == *av[b]);
                        }
                    }
                }
            }
            i = i + 1;
        }
        out
    }

    /// The content of an entity at an instant: the content at its latest
    /// version, by `(timestamp, id)`, whose timestamp is at or before the
    /// instant.  Fails with `NodeNotFound` when the entity has no versions
    /// at all and with `Internal` when none is early enough.
    #[verifier::loop_isolation(false)]
    pub fn get_content_at_timestamp(&self, entity_id: u128, timestamp: i64) -> (r: OnyxResult<
        String,
    >)
        requires
            self.wf(),
        ensures
            match r {
                Ok(s) => exists|vid: u64|
                    #![auto]
                    valid_vid(self.versions_seq(), vid) && ver(self.versions_seq(), vid).entity_id
                        == entity_id && ver(self.versions_seq(), vid).timestamp <= timestamp && (
                    forall|k: int|
                        0 <= k < self.versions_seq().len() && (
                        #[trigger] self.versions_seq()[k]).entity_id == entity_id
                            && self.versions_seq()[k].timestamp <= timestamp ==> ver_le(
                            self.versions_seq()[k],
                            ver(self.versions_seq(), vid),
                        )) && s@ == chain_content(self.versions_seq(), vid),
                Err(e) => match e {
                    OnyxError::NodeNotFound(q) => q == entity_id && (forall|k: int|
                        0 <= k < self.versions_seq().len() ==> (
                        #[trigger] self.versions_seq()[k]).entity_id != entity_id),
                    OnyxError::Internal(_) => (exists|k: int|
                        0 <= k < self.versions_seq().len() && (
                        #[trigger] self.versions_seq()[k]).entity_id == entity_id) && (forall|
                        k: int,
                    |
                        0 <= k < self.versions_seq().len() && (
                        #[trigger] self.versions_seq()[k]).entity_id == entity_id
                            ==> self.versions_seq()[k].timestamp > timestamp),
                    _ => false,
                },
            },
    {
        let ghost vs = self.versions_seq();
        let n: usize = self.versions.len();
        let mut best: usize = 0;
        let mut found: bool = false;
        let mut any: bool = false;
        let mut k: usize = 0;
        while k < n
            invariant
                0 <= k <= n,
                n == vs.len(),
                found ==> best < k && vs[best as int].entity_id == entity_id
                    && vs[best as int].timestamp <= timestamp,
                found ==> forall|w: int|
                    0 <= w < k && (#[trigger] vs[w]).entity_id == entity_id && vs[w].timestamp
                        <= timestamp ==> ver_le(vs[w], vs[best as int]),
                !found ==> forall|w: int|
                    0 <= w < k && (#[trigger] vs[w]).entity_id == entity_id ==> vs[w].timestamp
                        > timestamp,
                any <==> exists|w: int| 0 <= w < k && (#[trigger] vs[w]).entity_id == entity_id,
            decreases n - k,
        {
            let v: &VersionEntry = &self.versions[k];
            if v.entity_id == entity_id {
                any = true;
                proof {
                    assert(vs[k as int].entity_id == entity_id);
                }
                if v.timestamp <= timestamp {
                    if !found {
                        best = k;
                        found = true;
                    } else {
                        let b: &VersionEntry = &self.versions[best];
                        if v.timestamp > b.timestamp || (v.timestamp == b.timestamp
                            && v.version_id > b.version_id) {
                            best = k;
                        }
                    }
                }
            }
            k = k + 1;
        }
        if !found {
            if any {
                return Err(OnyxError::Internal(String::from_str(
                    "no version at or before the instant",
                )));
            }
            return Err(OnyxError::NodeNotFound(entity_id));
        }
        let vid: u64 = self.versions[best].version_id;
        proof {
            assert(vid == best + 1);
            assert(ver(vs, vid) == vs[best as int]);
        }
        match self.get_content_at_version(entity_id, vid) {
            Ok(s) => {
                proof {
                    assert(valid_vid(vs, vid) && ver(vs, vid).entity_id == entity_id && ver(
                        vs,
                        vid,
                    ).timestamp <= timestamp);
                }
                Ok(s)
            },
            Err(_) => {
                proof {
                    assert(false);
                }
                Err(OnyxError::NodeNotFound(entity_id))
            },
        }
    }
}


impl HistoryStore {
    /// Looks up the table index of a branch name.
    #[verifier::loop_isolation(false)]
    fn find_branch_idx(&self, name: &str) -> (r: Option<usize>)
        requires
            self.wf(),
        ensures
            match r {
                Some(i) => i < self.branches_seq().len() && self.branches_seq()[i as int].name@
                    == name@ && i == branch_idx(self.branches_seq(), name@),
                None => !has_branch(self.branches_seq(), name@),
            },
    {
        let mut i: usize = 0;
        while i < self.branches.len()
            invariant
                0 <= i <= self.branches_seq().len(),
                forall|j: int| 0 <= j < i ==> (#[trigger] self.branches_seq()[j]).name@ != name@,
            decreases self.branches_seq().len() - i,
        {
            if str_eq(self.branches[i].name.as_str(), name) {
                proof {
                    let bs = self.branches_seq();
                    let w = branch_idx(bs, name@);
                    assert(bs[i as int].name@ == name@);
                    assert(0 <= w < bs.len() && bs[w].name@ == name@);
                    assert forall|j: int, k: int|
                        0 <= j < k < bs.len() implies bs[j].name@ != bs[k].name@ by {}
                }
                return Some(i);
            }
            i = i + 1;
        }
        None
    }

    /// Creates a branch forking from a base version.  Fails with
    /// `VersionNotFound` when the base is unknown and `BranchAlreadyExists`
    /// when the name is taken; on failure nothing changes.
    pub fn create_branch(&mut self, name: &str, base_version: u64) -> (r: OnyxResult<()>)
        requires
            old(self).wf(),
        ensures
            final(self).wf(),
            final(self).versions_seq() == old(self).versions_seq(),
            final(self).heads_seq() == old(self).heads_seq(),
            match r {
                Ok(()) => {
                    &&& valid_vid(old(self).versions_seq(), base_version)
                    &&& !has_branch(old(self).branches_seq(), name@)
                    &&& final(self).branches_seq().len() == old(self).branches_seq().len() + 1
                    &&& (forall|i: int|
                        0 <= i < old(self).branches_seq().len() ==> final(self).branches_seq()[i]
                            == old(self).branches_seq()[i])
                    &&& final(self).branches_seq().last().name@ == name@
                    &&& final(self).branches_seq().last().head == base_version
                    &&& final(self).branches_seq().last().base == base_version
                    &&& final(self).branches_seq().last().merged_into is None
                },
                Err(e) => final(self).branches_seq() == old(self).branches_seq() && match e {
                    OnyxError::VersionNotFound(v) => v == base_version && !valid_vid(
                        old(self).versions_seq(),
                        base_version,
                    ),
                    OnyxError::BranchAlreadyExists(_) => valid_vid(
                        old(self).versions_seq(),
                        base_version,
                    ) && has_branch(old(self).branches_seq(), name@),
                    _ => false,
                },
            },
    {
        if base_version == 0 || base_version > self.versions.len() as u64 {
            return Err(OnyxError::VersionNotFound(base_version));
        }
        if self.find_branch_idx(name).is_some() {
            return Err(OnyxError::BranchAlreadyExists(name.to_owned()));
        }
        let b = Branch::new(name.to_owned(), base_version);
        self.branches.push(b);
        Ok(())
    }

    /// Returns the branch of the given name, if any.
    pub fn get_branch(&self, name: &str) -> (r: Option<&Branch>)
        requires
            self.wf(),
        ensures
            r is Some <==> has_branch(self.branches_seq(), name@),
            match r {
                Some(b) => b.name@ == name@ && *b == self.branches_seq()[branch_idx(
                    self.branches_seq(),
                    name@,
                )],
                None => true,
            },
    {
        match self.find_branch_idx(name) {
            Some(i) => Some(&self.branches[i]),
            None => None,
        }
    }

    /// All branches, in creation order.
    pub fn list_branches<'a>(&'a self) -> (r: Vec<&'a Branch>)
        ensures
            r@.len() == self.branches_seq().len(),
            forall|k: int| 0 <= k < r@.len() ==> *(#[trigger] r@[k]) == self.branches_seq()[k],
    {
        let mut r: Vec<&'a Branch> = Vec::new();
        let mut i: usize = 0;
        while i < self.branches.len()
            invariant
                0 <= i <= self.branches_seq().len(),
                r@.len() == i,
                forall|k: int| 0 <= k < i ==> *(#[trigger] r@[k]) == self.branches_seq()[k],
            decreases self.branches_seq().len() - i,
        {
            r.push(&self.branches[i]);
            i = i + 1;
        }
        r
    }

    /// Merges a source branch into a target branch: records a merge version
    /// on the target branch whose parent is the source head and whose entity
    /// is the source head's entity, marks the source merged, and moves the
    /// target head to the merge version.  Fails with `BranchNotFound`
    /// naming the first missing branch; on failure nothing changes.
    #[verifier::loop_isolation(false)]
    pub fn merge_branch(&mut self, source: &str, target: &str) -> (r: OnyxResult<u64>)
        requires
            old(self).wf(),
            old(self).versions_seq().len() < u64::MAX,
        ensures
            final(self).wf(),
            match r {
                Ok(vid) => {
                    &&& has_branch(old(self).branches_seq(), source@)
                    &&& has_branch(old(self).branches_seq(), target@)
                    &&& vid == old(self).versions_seq().len() + 1
                    &&& final(self).versions_seq().len() == old(self).versions_seq().len() + 1
                    &&& (forall|i: int|
                        0 <= i < old(self).versions_seq().len() ==> final(self).versions_seq()[i]
                            == old(self).versions_seq()[i])
                    &&& ({
                        let bs = old(self).branches_seq();
                        let src = bs[branch_idx(bs, source@)];
                        let merge = final(self).versions_seq().last();
                        &&& merge.version_id == vid
                        &&& merge.parent_version == Some(src.head)
                        &&& merge.entity_id == ver(old(self).versions_seq(), src.head).entity_id
                        &&& merge.branch@ == target@
                        &&& merge.diff is Initial
                        &&& merge.message matches Some(msg) && crate::ingest::contains_pat(
                            msg@,
                            source@,
                        ) && crate::ingest::contains_pat(msg@, target@)
                    })
                    &&& ({
                        let bs = final(self).branches_seq();
                        let obs = old(self).branches_seq();
                        let si = branch_idx(obs, source@);
                        let ti = branch_idx(obs, target@);
                        &&& bs.len() == obs.len()
                        &&& bs[si].name@ == source@
                        &&& bs[si].merged_into is Some
                        &&& bs[si].merged_into->0@ == target@
                        &&& bs[ti].name@ == target@
                        &&& bs[ti].head == vid
                        &&& (forall|i: int|
                            0 <= i < bs.len() && i != si && i != ti ==> bs[i] == obs[i])
                    })
                },
                Err(e) => {
                    &&& final(self).versions_seq() == old(self).versions_seq()
                    &&& final(self).branches_seq() == old(self).branches_seq()
                    &&& final(self).heads_seq() == old(self).heads_seq()
                    &&& match e {
                        OnyxError::BranchNotFound(q) => (q@ == source@ && !has_branch(
                            old(self).branches_seq(),
                            source@,
                        )) || (q@ == target@ && has_branch(old(self).branches_seq(), source@)
                            && !has_branch(old(self).branches_seq(), target@)),
                        _ => false,
                    }
                },
            },
    {
        let si: usize = match self.find_branch_idx(source) {
            Some(i) => i,
            None => {
                return Err(OnyxError::BranchNotFound(source.to_owned()));
            },
        };
        let ti: usize = match self.find_branch_idx(target) {
            Some(i) => i,
            None => {
                return Err(OnyxError::BranchNotFound(target.to_owned()));
            },
        };
        let source_head: u64 = self.branches[si].head;
        let n: usize = self.versions.len();
        proof {
            assert(valid_vid(old(self).versions_seq(), source_head)) by {
                assert(old(self).branches_seq()[si as int].head == source_head);
            }
            assert(1 <= source_head <= n as u64);
        }
        let hidx: usize = (source_head - 1) as usize;
        let entity: u128 = self.versions[hidx].entity_id;
        proof {
            assert(entity == ver(old(self).versions_seq(), source_head).entity_id);
        }

        // The merge message names both branches.
        let mut msg: String = String::from_str("Merge branch '");
        let ghost head_lit = msg@;
        msg.append(source);
        proof {
            assert(msg@ == head_lit + source@);
        }
        let ghost mid_start = msg@.len() as int;
        msg.append("' into '");
        let ghost target_start = msg@.len() as int;
        msg.append(target);
        let ghost with_target = msg@;
        msg.append("'");
        proof {
            assert(crate::ingest::contains_pat(msg@, source@)) by {
                assert(msg@.subrange(
                    head_lit.len() as int,
                    head_lit.len() as int + source@.len() as int,
                ) =~= source@);
                assert(crate::ingest::match_at(msg@, source@, head_lit.len() as int));
            }
            assert(crate::ingest::contains_pat(msg@, target@)) by {
                assert(msg@.subrange(target_start, target_start + target@.len() as int)
                    =~= target@);
                assert(crate::ingest::match_at(msg@, target@, target_start));
            }
        }

        let entry = VersionEntry {
            version_id: 0,
            entity_id: entity,
            parent_version: Some(source_head),
            branch: target.to_owned(),
            diff: Diff::Initial { content: msg.clone() },
            commit_id: None,
            author: None,
            message: Some(msg),
            timestamp: crate::external::now_millis(),
        };
        let vid: u64 = match self.record_version(entry) {
            Ok(v) => v,
            Err(_) => {
                proof {
                    assert(false);
                }
                return Err(OnyxError::BranchNotFound(source.to_owned()));
            },
        };

        // Mark the source branch merged.
        let sb: &Branch = &self.branches[si];
        let new_source = Branch {
            name: sb.name.clone(),
            head: sb.head,
            base: sb.base,
            created_at: sb.created_at,
            merged_into: Some(target.to_owned()),
        };
        self.branches.set(si, new_source);

        // Move the target head to the merge version.
        let tb: &Branch = &self.branches[ti];
        let new_target = Branch {
            name: tb.name.clone(),
            head: vid,
            base: tb.base,
            created_at: tb.created_at,
            merged_into: match &tb.merged_into {
                Some(s) => Some(s.clone()),
                None => None,
            },
        };
        self.branches.set(ti, new_target);
        proof {
            let bs = self.branches_seq();
            let vs = self.versions_seq();
            assert forall|i: int| 0 <= i < bs.len() implies valid_vid(
                vs,
                (#[trigger] bs[i]).head,
            ) && valid_vid(vs, bs[i].base) by {}
        }
        Ok(vid)
    }
}

// ---------------------------------------------------------------------------
// Laws of the version chains and the head index
// ---------------------------------------------------------------------------

/// Every version with a parent points at an existing earlier version of the
/// same entity; following parents therefore terminates at an initial
/// version.
pub proof fn lemma_parent_exists(h: &HistoryStore, vid: u64)
    requires
        h.wf(),
        valid_vid(h.versions_seq(), vid),
        ver(h.versions_seq(), vid).parent_version is Some,
    ensures
        valid_vid(h.versions_seq(), ver(h.versions_seq(), vid).parent_version->0),
        ver(h.versions_seq(), vid).parent_version->0 < vid,
        ver(h.versions_seq(), ver(h.versions_seq(), vid).parent_version->0).entity_id == ver(
            h.versions_seq(),
            vid,
        ).entity_id,
{
    let vs = h.versions_seq();
    assert(vs[vid - 1].version_id == vid - 1 + 1);
}

/// For every entity and branch with recorded versions, the head index names
/// exactly the latest of them in the `(timestamp, id)` order.
pub proof fn lemma_head_is_latest(h: &HistoryStore, entity: u128, branch: Seq<char>)
    requires
        h.wf(),
        has_head(h.heads_seq(), entity, branch),
    ensures
        ({
            let hd = head_of(h.heads_seq(), entity, branch);
            &&& valid_vid(h.versions_seq(), hd)
            &&& ver(h.versions_seq(), hd).entity_id == entity
            &&& ver(h.versions_seq(), hd).branch@ == branch
            &&& forall|k: int|
                0 <= k < h.versions_seq().len() && (#[trigger] h.versions_seq()[k]).entity_id
                    == entity && h.versions_seq()[k].branch@ == branch ==> ver_le(
                    h.versions_seq()[k],
                    ver(h.versions_seq(), head_of(h.heads_seq(), entity, branch)),
                )
        }),
{
    let hs = h.heads_seq();
    let w = choose|i: int| 0 <= i < hs.len() && hs[i].0 == entity && hs[i].1@ == branch;
    assert(hs[w].2 == head_of(hs, entity, branch));
}

/// Round trip: reconstructing content at a version whose diff carries a
/// post-image returns exactly that post-image; at an initial version it
/// returns the initial content.
pub proof fn lemma_content_round_trip(h: &HistoryStore, vid: u64)
    requires
        h.wf(),
        valid_vid(h.versions_seq(), vid),
    ensures
        (ver(h.versions_seq(), vid).diff matches Diff::ContentChanged { patch, .. } ==>
            chain_content(h.versions_seq(), vid) == patch@),
        (ver(h.versions_seq(), vid).diff matches Diff::Initial { content } ==> chain_content(
            h.versions_seq(),
            vid,
        ) == content@),
{
    let vs = h.versions_seq();
    let v = ver(vs, vid);
    assert(vs[vid - 1].version_id == vid - 1 + 1);
    match v.parent_version {
        None => {},
        Some(p) => {
            assert(1 <= p < vid);
        },
    }
}

} // verus!
