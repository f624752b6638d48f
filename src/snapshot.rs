//! A flat byte form of index bindings, so that the index survives a restart:
//! each binding is 64 bytes, the transition identifier then the anchor
//! identifier.

use vstd::prelude::*;
use crate::ids::{AnchorId, NodeId};
use crate::index::AnchorCommitments;

verus! {

/// Size of one binding record.
pub const RECORD_LEN: usize = 64;

/// The bytes of a list of bindings, one record after another.
pub open spec fn records_bytes(s: Seq<(NodeId, AnchorId)>) -> Seq<u8>
    decreases s.len(),
{
    if s.len() == 0 {
        seq![]
    } else {
        records_bytes(s.drop_last()) + s.last().0@ + s.last().1@
    }
}

/// Whether `v` is what `b` holds read as records: `b` is a whole number of
/// records, and record `i` holds the identifiers of binding `i`.
pub open spec fn read_as_records(b: Seq<u8>, v: Seq<(NodeId, AnchorId)>) -> bool {
    &&& b.len() == 64 * v.len()
    &&& forall|i: int|
        0 <= i < v.len() ==> (#[trigger] v[i]).0@ == b.subrange(64 * i, 64 * i + 32) && v[i].1@
            == b.subrange(64 * i + 32, 64 * i + 64)
}

/// Written bindings read back as the same bindings.
pub proof fn lemma_records_round_trip(v: Seq<(NodeId, AnchorId)>)
    ensures
        read_as_records(records_bytes(v), v),
    decreases v.len(),
{
    if v.len() > 0 {
        let p = v.drop_last();
        lemma_records_round_trip(p);
        let b = records_bytes(v);
        let bp = records_bytes(p);
        let n = v.len() - 1;
        assert(v.last().0@.len() == 32 && v.last().1@.len() == 32);
        assert(b.len() == 64 * v.len());
        assert forall|i: int| 0 <= i < v.len() implies (#[trigger] v[i]).0@ == b.subrange(
            64 * i,
            64 * i + 32,
        ) && v[i].1@ == b.subrange(64 * i + 32, 64 * i + 64) by {
            if i < n {
                assert(p[i] == v[i]);
                assert(b.subrange(64 * i, 64 * i + 32) =~= bp.subrange(64 * i, 64 * i + 32));
                assert(b.subrange(64 * i + 32, 64 * i + 64) =~= bp.subrange(64 * i + 32, 64 * i + 64));
            } else {
                assert(b.subrange(64 * i, 64 * i + 32) =~= v.last().0@);
                assert(b.subrange(64 * i + 32, 64 * i + 64) =~= v.last().1@);
            }
        }
    }
}

/// The 32 bytes of `b` from `off` on.
fn read32(b: &Vec<u8>, off: usize) -> (r: [u8; 32])
    requires
        off + 32 <= b@.len(),
    ensures
        r@ == b@.subrange(off as int, off + 32),
{
    let len = b.len();
    let mut a: [u8; 32] = [0u8; 32];
    let mut j: usize = 0;
    while j < 32
        invariant
            j <= 32,
            off + 32 <= b@.len(),
            len == b@.len(),
            a@.len() == 32,
            forall|k: int| 0 <= k < j ==> a@[k] == b@[off + k],
        decreases 32 - j,
    {
        a[j] = b[off + j];
        j = j + 1;
    }
    assert(a@ =~= b@.subrange(off as int, off + 32));
    a
}

/// Writes bindings as records.
pub fn encode_records(v: &Vec<(NodeId, AnchorId)>) -> (r: Vec<u8>)
    ensures
        r@ == records_bytes(v@),
{
    let mut out: Vec<u8> = Vec::new();
    let mut i: usize = 0;
    assert(v@.take(0) =~= Seq::<(NodeId, AnchorId)>::empty());
    while i < v.len()
        invariant
            i <= v@.len(),
            out@ == records_bytes(v@.take(i as int)),
        decreases v@.len() - i,
    {
        let ghost before = out@;
        let (t, a) = v[i];
        let mut j: usize = 0;
        while j < 32
            invariant
                j <= 32,
                t.bytes@.len() == 32,
                out@ == before + t.bytes@.take(j as int),
            decreases 32 - j,
        {
            out.push(t.bytes[j]);
            assert(t.bytes@.take(j + 1) =~= t.bytes@.take(j as int).push(t.bytes@[j as int]));
            j = j + 1;
        }
        let ghost mid = out@;
        let mut j: usize = 0;
        while j < 32
            invariant
                j <= 32,
                a.bytes@.len() == 32,
                out@ == mid + a.bytes@.take(j as int),
            decreases 32 - j,
        {
            out.push(a.bytes[j]);
            assert(a.bytes@.take(j + 1) =~= a.bytes@.take(j as int).push(a.bytes@[j as int]));
            j = j + 1;
        }
        assert(t.bytes@.take(32) =~= t.bytes@);
        assert(a.bytes@.take(32) =~= a.bytes@);
        assert(v@.take(i + 1).drop_last() =~= v@.take(i as int));
        assert(out@ =~= records_bytes(v@.take(i + 1)));
        i = i + 1;
    }
    assert(v@.take(v@.len() as int) =~= v@);
    out
}

/// Reads bindings from records; `None` where the length is not a whole
/// number of records.
pub fn decode_records(b: &Vec<u8>) -> (r: Option<Vec<(NodeId, AnchorId)>>)
    ensures
        r is None <==> b@.len() % 64 != 0,
        r matches Some(v) ==> read_as_records(b@, v@),
{
    if b.len() % RECORD_LEN != 0 {
        return None;
    }
    let len = b.len();
    let n = len / RECORD_LEN;
    let mut out: Vec<(NodeId, AnchorId)> = Vec::new();
    let mut i: usize = 0;
    while i < n
        invariant
            n == b@.len() / 64,
            len == b@.len(),
            b@.len() % 64 == 0,
            i <= n,
            out@.len() == i,
            forall|k: int|
                0 <= k < i ==> (#[trigger] out@[k]).0@ == b@.subrange(64 * k, 64 * k + 32)
                    && out@[k].1@ == b@.subrange(64 * k + 32, 64 * k + 64),
        decreases n - i,
    {
        assert(64 * i + 64 <= b@.len()) by (nonlinear_arith)
            requires
                i < n,
                n == b@.len() / 64,
                b@.len() % 64 == 0,
        ;
        let off = RECORD_LEN * i;
        let t = NodeId { bytes: read32(b, off) };
        let a = AnchorId { bytes: read32(b, off + 32) };
        out.push((t, a));
        i = i + 1;
    }
    assert(b@.len() == 64 * out@.len()) by (nonlinear_arith)
        requires
            out@.len() == b@.len() / 64,
            b@.len() % 64 == 0,
    ;
    Some(out)
}

/// Each binding as an anchor with that one leaf, ready for
/// `MemoryIndex::rebuild`.
pub fn records_as_anchors(v: &Vec<(NodeId, AnchorId)>) -> (r: Vec<AnchorCommitments>)
    ensures
        r@.len() == v@.len(),
        forall|i: int|
            0 <= i < v@.len() ==> (#[trigger] r@[i]).anchor_id == v@[i].1 && r@[i].leaves@ == seq![
                v@[i].0,
            ],
{
    let mut out: Vec<AnchorCommitments> = Vec::new();
    let mut i: usize = 0;
    while i < v.len()
        invariant
            i <= v@.len(),
            out@.len() == i,
            forall|k: int|
                0 <= k < i ==> (#[trigger] out@[k]).anchor_id == v@[k].1 && out@[k].leaves@
                    == seq![v@[k].0],
        decreases v@.len() - i,
    {
        let (t, a) = v[i];
        let mut leaves: Vec<NodeId> = Vec::new();
        leaves.push(t);
        assert(leaves@ =~= seq![t]);
        out.push(AnchorCommitments { anchor_id: a, leaves });
        i = i + 1;
    }
    out
}

} // verus!
