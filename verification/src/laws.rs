//! The guarantees the adapter's semantics give, stated once and proved.
//!
//! Each law speaks over the record space's map view, the same view the
//! operation contracts are stated in: `set` inserts, `delete` removes,
//! `get` reads, and a scan's snapshot is fixed by the view at scan time.
//! The once-only initialization law stands beside the connection cell in
//! its own module.

use vstd::prelude::*;
use crate::order::lex_leq;

verus! {

/// Read-after-write: once `set(k, v)` has taken effect, `get(k)` yields
/// exactly `v`, and keeps doing so across a `set` or `delete` of any
/// other key — until the next `set` or `delete` of `k` itself.
pub proof fn lemma_read_after_write(
    m: Map<Seq<char>, Seq<u8>>,
    k: Seq<char>,
    v: Seq<u8>,
    k2: Seq<char>,
    v2: Seq<u8>,
)
    requires
        k2 != k,
    ensures
        m.insert(k, v).contains_key(k),
        m.insert(k, v)[k] == v,
        m.insert(k, v).insert(k2, v2).contains_key(k),
        m.insert(k, v).insert(k2, v2)[k] == v,
        m.insert(k, v).remove(k2).contains_key(k),
        m.insert(k, v).remove(k2)[k] == v,
{
}

/// Delete is a true removal: after `delete(k)` the key is absent, and a
/// second `delete(k)` succeeds as a no-op, leaving the space exactly as
/// the first left it.
pub proof fn lemma_delete_removes(m: Map<Seq<char>, Seq<u8>>, k: Seq<char>)
    ensures
        !m.remove(k).contains_key(k),
        m.remove(k).remove(k) == m.remove(k),
{
    assert(m.remove(k).remove(k) =~= m.remove(k));
}

/// A never-written key reads as absent: it is absent from the fresh
/// space, and stays absent under a `set` or `delete` of any other key.
/// `get` of an absent key answers `None` — a successful outcome, not a
/// failure.
pub proof fn lemma_missing_key(m: Map<Seq<char>, Seq<u8>>, k: Seq<char>, k2: Seq<char>, v2: Seq<u8>)
    requires
        !m.contains_key(k),
        k2 != k,
    ensures
        !Map::<Seq<char>, Seq<u8>>::empty().contains_key(k),
        !m.insert(k2, v2).contains_key(k),
        !m.remove(k2).contains_key(k),
{
}

/// Overwrite semantics: `set(k, v1)` followed by `set(k, v2)` leaves
/// `get(k) == v2`, and the space carries no residual trace of `v1`: it
/// is exactly the space that `set(k, v2)` alone would have produced.
pub proof fn lemma_overwrite(m: Map<Seq<char>, Seq<u8>>, k: Seq<char>, v1: Seq<u8>, v2: Seq<u8>)
    ensures
        m.insert(k, v1).insert(k, v2) == m.insert(k, v2),
        m.insert(k, v1).insert(k, v2)[k] == v2,
{
    assert(m.insert(k, v1).insert(k, v2) =~= m.insert(k, v2));
}

/// Scan snapshot isolation: the key list a scan materialises is decided
/// by the space as it stood at scan time. A key absent then — one
/// written only after the scan started, say — is not in the snapshot,
/// whatever prefix was asked for.
pub proof fn lemma_scan_snapshot(
    ks: Seq<Seq<char>>,
    m: Map<Seq<char>, Seq<u8>>,
    p: Seq<char>,
    k: Seq<char>,
)
    requires
        forall|q: Seq<char>| #[trigger] ks.contains(q) <==> m.contains_key(q) && lex_leq(p, q),
        !m.contains_key(k),
    ensures
        !ks.contains(k),
{
}

} // verus!
