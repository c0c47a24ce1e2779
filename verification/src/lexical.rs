//! The order in which frames are played: paths compared byte by byte.

use vstd::prelude::*;
use vstd::string::StringSliceAdditionalSpecFns;
use vstd::utf8::{encode_utf8, encode_utf8_decode_utf8};

verus! {

/// The bytes of a path: its text in UTF-8.
pub open spec fn path_bytes(path: Seq<char>) -> Seq<u8> {
    encode_utf8(path)
}

/// `a` and `b` hold the same bytes at every index below `k`.
pub open spec fn agree_before(a: Seq<u8>, b: Seq<u8>, k: int) -> bool {
    &&& 0 <= k <= a.len()
    &&& k <= b.len()
    &&& forall|j: int| 0 <= j < k ==> a[j] == b[j]
}

/// `k` shows that `a` comes no later than `b`: the two agree below `k`, and
/// there `a` either ends or holds the smaller byte.
pub open spec fn decided_at(a: Seq<u8>, b: Seq<u8>, k: int) -> bool {
    &&& agree_before(a, b, k)
    &&& (k == a.len() || (k < b.len() && a[k] < b[k]))
}

/// Lexicographic order on byte strings, a prefix coming before its extensions.
pub open spec fn bytes_le(a: Seq<u8>, b: Seq<u8>) -> bool {
    exists|k: int| decided_at(a, b, k)
}

/// The order on paths: lexicographic on their UTF-8 bytes.
pub open spec fn path_le(p: Seq<char>, q: Seq<char>) -> bool {
    bytes_le(path_bytes(p), path_bytes(q))
}

/// Decides `bytes_le` by walking both slices to their first difference.
pub fn bytes_at_most(a: &[u8], b: &[u8]) -> (r: bool)
    ensures
        r == bytes_le(a@, b@),
{
    let mut i: usize = 0;
    while i < a.len() && i < b.len() && a[i] == b[i]
        invariant
            agree_before(a@, b@, i as int),
        decreases a.len() - i,
    {
        i += 1;
    }
    let r = i == a.len() || (i < b.len() && a[i] < b[i]);
    proof {
        if r {
            assert(decided_at(a@, b@, i as int));
        }
    }
    r
}

/// Decides `path_le` on two paths.
pub fn path_at_most(p: &str, q: &str) -> (r: bool)
    ensures
        r == path_le(p@, q@),
{
    bytes_at_most(p.as_bytes(), q.as_bytes())
}

/// Every byte string is at most itself.
pub proof fn lemma_bytes_le_reflexive(a: Seq<u8>)
    ensures
        bytes_le(a, a),
{
    assert(decided_at(a, a, a.len() as int));
}

proof fn lemma_bytes_le_total_from(a: Seq<u8>, b: Seq<u8>, i: int)
    requires
        agree_before(a, b, i),
    ensures
        bytes_le(a, b) || bytes_le(b, a),
    decreases a.len() - i,
{
    if i == a.len() || i == b.len() || a[i] != b[i] {
        assert(decided_at(a, b, i) || decided_at(b, a, i));
    } else {
        lemma_bytes_le_total_from(a, b, i + 1);
    }
}

/// Any two byte strings are comparable.
pub proof fn lemma_bytes_le_total(a: Seq<u8>, b: Seq<u8>)
    ensures
        bytes_le(a, b) || bytes_le(b, a),
{
    lemma_bytes_le_total_from(a, b, 0);
}

/// Two byte strings that are each at most the other are the same string.
pub proof fn lemma_bytes_le_antisymmetric(a: Seq<u8>, b: Seq<u8>)
    requires
        bytes_le(a, b),
        bytes_le(b, a),
    ensures
        a == b,
{
    let k1 = choose|k: int| decided_at(a, b, k);
    let k2 = choose|k: int| decided_at(b, a, k);
    assert(k1 == k2);
}

/// The order passes along a chain of three.
pub proof fn lemma_bytes_le_transitive(a: Seq<u8>, b: Seq<u8>, c: Seq<u8>)
    requires
        bytes_le(a, b),
        bytes_le(b, c),
    ensures
        bytes_le(a, c),
{
    let k1 = choose|k: int| decided_at(a, b, k);
    let k2 = choose|k: int| decided_at(b, c, k);
    let k = if k1 <= k2 { k1 } else { k2 };
    assert(decided_at(a, c, k));
}

/// Distinct paths have distinct bytes.
pub proof fn lemma_path_bytes_injective(p: Seq<char>, q: Seq<char>)
    requires
        path_bytes(p) == path_bytes(q),
    ensures
        p == q,
{
    encode_utf8_decode_utf8(p);
    encode_utf8_decode_utf8(q);
}

/// The order on paths, as a relation that can be handed to sequence lemmas.
pub open spec fn path_order() -> spec_fn(Seq<char>, Seq<char>) -> bool {
    |p: Seq<char>, q: Seq<char>| path_le(p, q)
}

/// `path_le` is a total order: reflexive, antisymmetric, transitive, and any
/// two paths are comparable.
pub proof fn lemma_path_le_total_order()
    ensures
        vstd::relations::total_ordering(path_order()),
{
    let r = path_order();
    assert forall|p: Seq<char>, q: Seq<char>| #[trigger] r(p, q) && #[trigger] r(q, p) implies p
        == q by {
        lemma_bytes_le_antisymmetric(path_bytes(p), path_bytes(q));
        lemma_path_bytes_injective(p, q);
    }
    assert forall|p: Seq<char>, q: Seq<char>, s: Seq<char>| #[trigger]
        r(p, q) && #[trigger] r(q, s) implies r(p, s) by {
        lemma_bytes_le_transitive(path_bytes(p), path_bytes(q), path_bytes(s));
    }
    assert forall|p: Seq<char>, q: Seq<char>| #[trigger] r(p, q) || #[trigger] r(q, p) by {
        lemma_bytes_le_total(path_bytes(p), path_bytes(q));
    }
}

} // verus!
