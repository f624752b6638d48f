//! The anchor index: a partial function from transition identifiers to the
//! identifier of the anchor that commits to them.

use vstd::prelude::*;
use crate::ids::{AnchorId, NodeId};

verus! {

/// What the index reads of an anchor: its identifier and the transition
/// identifiers that are the leaves of its Merkle block.
#[derive(Clone, Debug)]
pub struct AnchorCommitments {
    pub anchor_id: AnchorId,
    pub leaves: Vec<NodeId>,
}

/// Failures of index operations.
#[derive(Clone, Copy, Debug, PartialEq, Eq, Structural)]
pub enum IndexError {
    /// No anchor is recorded for the transition.
    NotFound,
    /// A transition is already bound to a different anchor.
    Conflict,
}

/// The leaves of an anchor as byte sequences.
pub open spec fn leaf_ids(a: AnchorCommitments) -> Seq<Seq<u8>> {
    a.leaves@.map_values(|t: NodeId| t@)
}

/// Whether some leaf of `a` is bound in `m` to an anchor other than `a`.
pub open spec fn conflicts_with(m: Map<Seq<u8>, Seq<u8>>, a: AnchorCommitments) -> bool {
    exists|i: int|
        0 <= i < a.leaves@.len() && #[trigger] m.contains_key(a.leaves@[i]@) && m[a.leaves@[i]@]
            != a.anchor_id@
}

/// Whether some leaf of `a` is not bound in `m` at all.
pub open spec fn has_unbound_leaf(m: Map<Seq<u8>, Seq<u8>>, a: AnchorCommitments) -> bool {
    exists|i: int| 0 <= i < a.leaves@.len() && !#[trigger] m.contains_key(a.leaves@[i]@)
}

/// `m` with every leaf of `a` bound to the identifier of `a`, keeping the
/// bindings already there.
pub open spec fn with_anchor(m: Map<Seq<u8>, Seq<u8>>, a: AnchorCommitments) -> Map<
    Seq<u8>,
    Seq<u8>,
> {
    Map::new(
        |k: Seq<u8>| m.contains_key(k) || leaf_ids(a).contains(k),
        |k: Seq<u8>|
            if m.contains_key(k) {
                m[k]
            } else {
                a.anchor_id@
            },
    )
}

/// `m` with the first `n` leaves of `a` bound to the identifier of `a`,
/// keeping the bindings already there.
pub open spec fn with_prefix(m: Map<Seq<u8>, Seq<u8>>, a: AnchorCommitments, n: int) -> Map<
    Seq<u8>,
    Seq<u8>,
> {
    Map::new(
        |k: Seq<u8>| m.contains_key(k) || exists|j: int| 0 <= j < n && a.leaves@[j]@ == k,
        |k: Seq<u8>|
            if m.contains_key(k) {
                m[k]
            } else {
                a.anchor_id@
            },
    )
}

/// Once an anchor has been indexed without conflict, every one of its leaves
/// resolves to that anchor's identifier.
pub proof fn lemma_index_coverage(m: Map<Seq<u8>, Seq<u8>>, a: AnchorCommitments)
    requires
        !conflicts_with(m, a),
    ensures
        forall|i: int|
            0 <= i < a.leaves@.len() ==> #[trigger] with_anchor(m, a).contains_key(a.leaves@[i]@)
                && with_anchor(m, a)[a.leaves@[i]@] == a.anchor_id@,
{
    assert forall|i: int| 0 <= i < a.leaves@.len() implies #[trigger] with_anchor(
        m,
        a,
    ).contains_key(a.leaves@[i]@) && with_anchor(m, a)[a.leaves@[i]@] == a.anchor_id@ by {
        assert(leaf_ids(a)[i] == a.leaves@[i]@);
        if m.contains_key(a.leaves@[i]@) {
            assert(m[a.leaves@[i]@] == a.anchor_id@);
        }
    }
}

/// Two anchors with different identifiers that share a leaf cannot both be
/// indexed: once the first is in, the second conflicts, and the shared leaf
/// stays bound to the first.
pub proof fn lemma_index_functional(
    m: Map<Seq<u8>, Seq<u8>>,
    a1: AnchorCommitments,
    a2: AnchorCommitments,
    i1: int,
    i2: int,
)
    requires
        !conflicts_with(m, a1),
        0 <= i1 < a1.leaves@.len(),
        0 <= i2 < a2.leaves@.len(),
        a1.leaves@[i1]@ == a2.leaves@[i2]@,
        a1.anchor_id@ != a2.anchor_id@,
    ensures
        conflicts_with(with_anchor(m, a1), a2),
        with_anchor(m, a1)[a2.leaves@[i2]@] == a1.anchor_id@,
{
    lemma_index_coverage(m, a1);
    assert(with_anchor(m, a1).contains_key(a1.leaves@[i1]@));
}

/// Indexing an anchor a second time conflicts with nothing, binds nothing
/// new and leaves the mapping as it was.
pub proof fn lemma_index_idempotent(m: Map<Seq<u8>, Seq<u8>>, a: AnchorCommitments)
    requires
        !conflicts_with(m, a),
    ensures
        !conflicts_with(with_anchor(m, a), a),
        !has_unbound_leaf(with_anchor(m, a), a),
        with_anchor(with_anchor(m, a), a) == with_anchor(m, a),
{
    lemma_index_coverage(m, a);
    let m1 = with_anchor(m, a);
    assert forall|k: Seq<u8>| leaf_ids(a).contains(k) implies m1.contains_key(k) by {}
    assert(with_anchor(m1, a) =~= m1);
}

/// A transition that is not a leaf of the anchor and was not bound before
/// stays unbound after the anchor is indexed.
pub proof fn lemma_index_leaves_others(m: Map<Seq<u8>, Seq<u8>>, a: AnchorCommitments, t: Seq<u8>)
    requires
        !m.contains_key(t),
        forall|i: int| 0 <= i < a.leaves@.len() ==> (#[trigger] a.leaves@[i])@ != t,
    ensures
        !with_anchor(m, a).contains_key(t),
{
    if leaf_ids(a).contains(t) {
        let j = choose|j: int| 0 <= j < leaf_ids(a).len() && leaf_ids(a)[j] == t;
        assert(a.leaves@[j]@ == t);
    }
}

/// Indexing one anchor into an empty index gives exactly the bindings of
/// its leaves to its identifier.
pub proof fn lemma_index_fresh(a: AnchorCommitments)
    ensures
        !conflicts_with(Map::empty(), a),
        with_anchor(Map::empty(), a) == Map::new(
            |k: Seq<u8>| leaf_ids(a).contains(k),
            |k: Seq<u8>| a.anchor_id@,
        ),
{
    assert(with_anchor(Map::empty(), a) =~= Map::new(
        |k: Seq<u8>| leaf_ids(a).contains(k),
        |k: Seq<u8>| a.anchor_id@,
    ));
}

/// The mapping after indexing the anchors of `s` in order, or `None` where
/// one of them conflicts with those before it.
pub open spec fn indexed_all(s: Seq<AnchorCommitments>) -> Option<Map<Seq<u8>, Seq<u8>>>
    decreases s.len(),
{
    if s.len() == 0 {
        Some(Map::empty())
    } else {
        match indexed_all(s.drop_last()) {
            None => None,
            Some(m) => if conflicts_with(m, s.last()) {
                None
            } else {
                Some(with_anchor(m, s.last()))
            },
        }
    }
}

/// A conflict among the first `n` anchors is a conflict among all of them.
pub proof fn lemma_conflict_persists(s: Seq<AnchorCommitments>, n: int)
    requires
        0 <= n <= s.len(),
        indexed_all(s.take(n)) is None,
    ensures
        indexed_all(s) is None,
    decreases s.len() - n,
{
    if n < s.len() {
        assert(s.take(n + 1).drop_last() =~= s.take(n));
        lemma_conflict_persists(s, n + 1);
    } else {
        assert(s.take(n) =~= s);
    }
}

/// Lookup and insertion by transition identifier.
pub trait Index {
    /// The index's own consistency condition.
    spec fn index_wf(&self) -> bool;

    /// Transition identifier to anchor identifier.
    spec fn mapping(&self) -> Map<Seq<u8>, Seq<u8>>;

    /// The anchor bound to transition `tsid`, or `NotFound`.
    fn anchor_id_by_transition_id(&self, tsid: NodeId) -> (r: Result<AnchorId, IndexError>)
        requires
            self.index_wf(),
        ensures
            match r {
                Ok(a) => self.mapping().contains_key(tsid@) && self.mapping()[tsid@] == a@,
                Err(e) => e == IndexError::NotFound && !self.mapping().contains_key(tsid@),
            },
    ;

    /// Binds every leaf of `anchor` to its identifier. Fails with `Conflict`,
    /// changing nothing, where a leaf is bound to another anchor; otherwise
    /// reports whether any binding was new.
    fn index_anchor(&mut self, anchor: &AnchorCommitments) -> (r: Result<bool, IndexError>)
        requires
            old(self).index_wf(),
        ensures
            final(self).index_wf(),
            conflicts_with(old(self).mapping(), *anchor) ==> r == Err::<bool, IndexError>(
                IndexError::Conflict,
            ) && final(self).mapping() == old(self).mapping(),
            !conflicts_with(old(self).mapping(), *anchor) ==> r == Ok::<bool, IndexError>(
                has_unbound_leaf(old(self).mapping(), *anchor),
            ) && final(self).mapping() == with_anchor(old(self).mapping(), *anchor),
    ;
}

/// An index held in memory as a list of bindings.
pub struct MemoryIndex {
    entries: Vec<(NodeId, AnchorId)>,
    bound: Ghost<Map<Seq<u8>, Seq<u8>>>,
}

impl MemoryIndex {
    /// The bindings are exactly those of the ghost mapping.
    pub closed spec fn wf(&self) -> bool {
        &&& forall|i: int|
            0 <= i < self.entries@.len() ==> #[trigger] self.bound@.contains_key(
                self.entries@[i].0@,
            ) && self.bound@[self.entries@[i].0@] == self.entries@[i].1@
        &&& forall|k: Seq<u8>|
            #[trigger] self.bound@.contains_key(k) ==> exists|i: int|
                0 <= i < self.entries@.len() && self.entries@[i].0@ == k
        &&& forall|i: int, j: int|
            0 <= i < self.entries@.len() && 0 <= j < self.entries@.len() && i != j
                ==> #[trigger] self.entries@[i].0@ != #[trigger] self.entries@[j].0@
    }

    pub closed spec fn bindings(&self) -> Map<Seq<u8>, Seq<u8>> {
        self.bound@
    }

    /// An index with no bindings.
    pub fn new() -> (r: MemoryIndex)
        ensures
            r.wf(),
            r.bindings() == Map::<Seq<u8>, Seq<u8>>::empty(),
    {
        MemoryIndex { entries: Vec::new(), bound: Ghost(Map::empty()) }
    }

    /// Rebuilds the index from the stored anchors, in order; fails with
    /// `Conflict` where two of them bind one transition to different anchors.
    pub fn rebuild(anchors: &Vec<AnchorCommitments>) -> (r: Result<MemoryIndex, IndexError>)
        ensures
            match r {
                Ok(idx) => idx.wf() && indexed_all(anchors@) == Some(idx.bindings()),
                Err(e) => e == IndexError::Conflict && indexed_all(anchors@) is None,
            },
    {
        let mut idx = MemoryIndex::new();
        let mut i: usize = 0;
        assert(anchors@.take(0) =~= Seq::<AnchorCommitments>::empty());
        while i < anchors.len()
            invariant
                i <= anchors@.len(),
                idx.wf(),
                indexed_all(anchors@.take(i as int)) == Some(idx.bindings()),
            decreases anchors@.len() - i,
        {
            assert(anchors@.take(i + 1).drop_last() =~= anchors@.take(i as int));
            assert(anchors@.take(i + 1).last() == anchors@[i as int]);
            match idx.index_anchor(&anchors[i]) {
                Ok(_) => {},
                Err(e) => {
                    proof {
                        lemma_conflict_persists(anchors@, i + 1);
                    }
                    return Err(e);
                },
            }
            i = i + 1;
        }
        assert(anchors@.take(anchors@.len() as int) =~= anchors@);
        Ok(idx)
    }

    /// Every binding held, each once.
    pub fn records(&self) -> (r: Vec<(NodeId, AnchorId)>)
        requires
            self.wf(),
        ensures
            forall|i: int|
                0 <= i < r@.len() ==> #[trigger] self.bindings().contains_key(r@[i].0@)
                    && self.bindings()[r@[i].0@] == r@[i].1@,
            forall|k: Seq<u8>|
                #[trigger] self.bindings().contains_key(k) ==> exists|i: int|
                    0 <= i < r@.len() && r@[i].0@ == k,
            forall|i: int, j: int|
                0 <= i < r@.len() && 0 <= j < r@.len() && i != j ==> #[trigger] r@[i].0@
                    != #[trigger] r@[j].0@,
    {
        let mut out: Vec<(NodeId, AnchorId)> = Vec::new();
        let mut i: usize = 0;
        while i < self.entries.len()
            invariant
                self.wf(),
                i <= self.entries@.len(),
                out@ == self.entries@.take(i as int),
            decreases self.entries@.len() - i,
        {
            out.push(self.entries[i]);
            assert(out@ =~= self.entries@.take(i + 1));
            i = i + 1;
        }
        assert(out@ =~= self.entries@);
        out
    }

    /// Position of the binding of `t`, if there is one.
    fn position(&self, t: &NodeId) -> (r: Option<usize>)
        requires
            self.wf(),
        ensures
            match r {
                Some(i) => i < self.entries@.len() && self.entries@[i as int].0@ == t@,
                None => !self.bound@.contains_key(t@),
            },
    {
        let mut i: usize = 0;
        while i < self.entries.len()
            invariant
                self.wf(),
                i <= self.entries@.len(),
                forall|j: int| 0 <= j < i ==> self.entries@[j].0@ != t@,
            decreases self.entries@.len() - i,
        {
            if self.entries[i].0.same_as(t) {
                return Some(i);
            }
            i = i + 1;
        }
        None
    }
}

impl Index for MemoryIndex {
    open spec fn index_wf(&self) -> bool {
        self.wf()
    }

    open spec fn mapping(&self) -> Map<Seq<u8>, Seq<u8>> {
        self.bindings()
    }

    fn anchor_id_by_transition_id(&self, tsid: NodeId) -> (r: Result<AnchorId, IndexError>) {
        match self.position(&tsid) {
            Some(i) => {
                assert(self.bound@.contains_key(self.entries@[i as int].0@));
                Ok(self.entries[i].1)
            },
            None => Err(IndexError::NotFound),
        }
    }

    fn index_anchor(&mut self, anchor: &AnchorCommitments) -> (r: Result<bool, IndexError>) {
        let ghost m0 = self.bound@;
        let mut i: usize = 0;
        while i < anchor.leaves.len()
            invariant
                self.wf(),
                self.bound@ == m0,
                i <= anchor.leaves@.len(),
                forall|j: int|
                    0 <= j < i && #[trigger] m0.contains_key(anchor.leaves@[j]@) ==> m0[anchor.leaves@[j]@]
                        == anchor.anchor_id@,
            decreases anchor.leaves@.len() - i,
        {
            match self.position(&anchor.leaves[i]) {
                Some(p) => {
                    assert(self.bound@.contains_key(self.entries@[p as int].0@));
                    if !self.entries[p].1.same_as(&anchor.anchor_id) {
                        return Err(IndexError::Conflict);
                    }
                },
                None => {},
            }
            i = i + 1;
        }
        assert(!conflicts_with(m0, *anchor));
        let mut added = false;
        let mut i: usize = 0;
        assert(self.bound@ =~= with_prefix(m0, *anchor, 0));
        while i < anchor.leaves.len()
            invariant
                self.wf(),
                !conflicts_with(m0, *anchor),
                i <= anchor.leaves@.len(),
                self.bound@ == with_prefix(m0, *anchor, i as int),
                added == exists|j: int| 0 <= j < i && !#[trigger] m0.contains_key(anchor.leaves@[j]@),
            decreases anchor.leaves@.len() - i,
        {
            let t = anchor.leaves[i];
            let ghost before = self.bound@;
            match self.position(&t) {
                Some(p) => {
                    proof {
                        assert(self.bound@.contains_key(self.entries@[p as int].0@));
                        if !m0.contains_key(t@) {
                            let j = choose|j: int| 0 <= j < i && anchor.leaves@[j]@ == t@;
                            assert(!m0.contains_key(anchor.leaves@[j]@));
                        }
                    }
                },
                None => {
                    let ghost old_entries = self.entries@;
                    self.entries.push((t, anchor.anchor_id));
                    self.bound = Ghost(self.bound@.insert(t@, anchor.anchor_id@));
                    assert forall|k: Seq<u8>| #[trigger] self.bound@.contains_key(k) implies exists|q: int|
                        0 <= q < self.entries@.len() && self.entries@[q].0@ == k by {
                        if k == t@ {
                            assert(self.entries@[old_entries.len() as int].0@ == k);
                        } else {
                            let q = choose|q: int| 0 <= q < old_entries.len() && old_entries[q].0@ == k;
                            assert(self.entries@[q].0@ == k);
                        }
                    }
                    assert forall|p: int, q: int|
                        0 <= p < self.entries@.len() && 0 <= q < self.entries@.len() && p != q
                            implies #[trigger] self.entries@[p].0@ != #[trigger] self.entries@[q].0@ by {
                        if p < old_entries.len() {
                            assert(before.contains_key(old_entries[p].0@));
                        }
                        if q < old_entries.len() {
                            assert(before.contains_key(old_entries[q].0@));
                        }
                    }
                    assert forall|q: int| 0 <= q < self.entries@.len() implies #[trigger] self.bound@.contains_key(
                        self.entries@[q].0@,
                    ) && self.bound@[self.entries@[q].0@] == self.entries@[q].1@ by {
                        if q < old_entries.len() {
                            assert(before.contains_key(old_entries[q].0@));
                        }
                    }
                    added = true;
                },
            }
            assert(self.bound@ =~= with_prefix(m0, *anchor, i + 1));
            i = i + 1;
        }
        assert(self.bound@ =~= with_anchor(m0, *anchor)) by {
            assert forall|k: Seq<u8>| leaf_ids(*anchor).contains(k) <==> exists|j: int|
                0 <= j < anchor.leaves@.len() && anchor.leaves@[j]@ == k by {
                if leaf_ids(*anchor).contains(k) {
                    let j = choose|j: int| 0 <= j < leaf_ids(*anchor).len() && leaf_ids(*anchor)[j] == k;
                    assert(anchor.leaves@[j]@ == k);
                }
                if exists|j: int| 0 <= j < anchor.leaves@.len() && anchor.leaves@[j]@ == k {
                    let j = choose|j: int| 0 <= j < anchor.leaves@.len() && anchor.leaves@[j]@ == k;
                    assert(leaf_ids(*anchor)[j] == k);
                }
            }
        }
        Ok(added)
    }
}

} // verus!
