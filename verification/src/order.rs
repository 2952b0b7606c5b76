//! Lexicographic order on key strings.
//!
//! The embedded store keeps the records of a record space ordered by key,
//! and a prefix scan selects the keys greater than or equal to the given
//! prefix under this order. The order compares character by character on
//! Unicode scalar values, shorter strings coming first among equals.

use vstd::prelude::*;
use vstd::string::*;

verus! {

/// Strict lexicographic order on key views: `a` comes strictly before `b`.
pub open spec fn lex_lt(a: Seq<char>, b: Seq<char>) -> bool
    decreases a.len(),
{
    if b.len() == 0 {
        false
    } else if a.len() == 0 {
        true
    } else if (a[0] as u32) < (b[0] as u32) {
        true
    } else if (b[0] as u32) < (a[0] as u32) {
        false
    } else {
        lex_lt(a.skip(1), b.skip(1))
    }
}

/// Reflexive lexicographic order: `a` comes before `b` or equals it.
pub open spec fn lex_leq(a: Seq<char>, b: Seq<char>) -> bool {
    lex_lt(a, b) || a == b
}

/// No key comes strictly before itself.
pub proof fn lemma_lex_irrefl(a: Seq<char>)
    ensures
        !lex_lt(a, a),
    decreases a.len(),
{
    if a.len() > 0 {
        lemma_lex_irrefl(a.skip(1));
    }
}

/// Strict order in one direction rules it out in the other.
pub proof fn lemma_lex_asym(a: Seq<char>, b: Seq<char>)
    requires
        lex_lt(a, b),
    ensures
        !lex_lt(b, a),
    decreases a.len(),
{
    if a.len() > 0 && b.len() > 0 && (a[0] as u32) == (b[0] as u32) {
        lemma_lex_asym(a.skip(1), b.skip(1));
    }
}

/// The strict order is transitive.
pub proof fn lemma_lex_trans(a: Seq<char>, b: Seq<char>, c: Seq<char>)
    requires
        lex_lt(a, b),
        lex_lt(b, c),
    ensures
        lex_lt(a, c),
    decreases a.len(),
{
    if a.len() > 0 && b.len() > 0 && c.len() > 0 && (a[0] as u32) == (b[0] as u32) && (b[0]
        as u32) == (c[0] as u32) {
        lemma_lex_trans(a.skip(1), b.skip(1), c.skip(1));
    }
}

/// The reflexive order followed by the strict one stays strict.
pub proof fn lemma_lex_leq_lt_trans(a: Seq<char>, b: Seq<char>, c: Seq<char>)
    requires
        lex_leq(a, b),
        lex_lt(b, c),
    ensures
        lex_lt(a, c),
{
    if a != b {
        lemma_lex_trans(a, b, c);
    }
}

/// The strict order followed by the reflexive one stays strict.
pub proof fn lemma_lex_lt_leq_trans(a: Seq<char>, b: Seq<char>, c: Seq<char>)
    requires
        lex_lt(a, b),
        lex_leq(b, c),
    ensures
        lex_lt(a, c),
{
    if b != c {
        lemma_lex_trans(a, b, c);
    }
}

/// On equal prefixes of length `i`, the order is decided by the tails.
proof fn lemma_lex_skip(a: Seq<char>, b: Seq<char>, i: int)
    requires
        0 <= i <= a.len(),
        i <= b.len(),
        forall|j: int| 0 <= j < i ==> a[j] == b[j],
    ensures
        lex_lt(a, b) == lex_lt(a.skip(i), b.skip(i)),
    decreases i,
{
    if i == 0 {
        assert(a.skip(0) =~= a);
        assert(b.skip(0) =~= b);
    } else {
        assert(a[0] == b[0]);
        lemma_lex_skip(a.skip(1), b.skip(1), i - 1);
        assert(a.skip(1).skip(i - 1) =~= a.skip(i));
        assert(b.skip(1).skip(i - 1) =~= b.skip(i));
    }
}

/// The outcome of comparing two keys under the lexicographic order.
#[derive(Clone, Copy, Debug, PartialEq, Eq, Structural)]
pub enum KeyOrder {
    Less,
    Equal,
    Greater,
}

/// Compares two key strings under the store's lexicographic order.
pub fn lex_cmp(a: &str, b: &str) -> (o: KeyOrder)
    ensures
        (o is Less) == lex_lt(a@, b@),
        (o is Equal) == (a@ == b@),
        (o is Greater) == lex_lt(b@, a@),
{
    let alen: usize = a.unicode_len();
    let blen: usize = b.unicode_len();
    let mut i: usize = 0;
    while i < alen || i < blen
        invariant
            i <= alen,
            i <= blen,
            alen == a@.len(),
            blen == b@.len(),
            forall|j: int| 0 <= j < i ==> a@[j] == b@[j],
        decreases alen + blen - 2 * i,
    {
        if i >= alen {
            proof {
                lemma_lex_skip(a@, b@, i as int);
                lemma_lex_skip(b@, a@, i as int);
                assert(lex_lt(a@, b@));
                assert(!lex_lt(b@, a@));
                assert(a@.len() != b@.len());
            }
            return KeyOrder::Less;
        }
        if i >= blen {
            proof {
                lemma_lex_skip(a@, b@, i as int);
                lemma_lex_skip(b@, a@, i as int);
                assert(lex_lt(b@, a@));
                assert(!lex_lt(a@, b@));
                assert(a@.len() != b@.len());
            }
            return KeyOrder::Greater;
        }
        let ca = a.get_char(i);
        let cb = b.get_char(i);
        if ca == cb {
            i = i + 1;
        } else if (ca as u32) < (cb as u32) {
            proof {
                lemma_lex_skip(a@, b@, i as int);
                lemma_lex_skip(b@, a@, i as int);
                assert(lex_lt(a@, b@));
                assert(!lex_lt(b@, a@));
                assert(a@[i as int] != b@[i as int]);
            }
            return KeyOrder::Less;
        } else {
            proof {
                assert((cb as u32) < (ca as u32));
                lemma_lex_skip(a@, b@, i as int);
                lemma_lex_skip(b@, a@, i as int);
                assert(lex_lt(b@, a@));
                assert(!lex_lt(a@, b@));
                assert(a@[i as int] != b@[i as int]);
            }
            return KeyOrder::Greater;
        }
    }
    proof {
        assert(a@ =~= b@);
        lemma_lex_irrefl(a@);
    }
    KeyOrder::Equal
}

/// Decides whether `a` comes before `b` or equals it.
pub fn lex_leq_exec(a: &str, b: &str) -> (r: bool)
    ensures
        r == lex_leq(a@, b@),
{
    match lex_cmp(a, b) {
        KeyOrder::Less => true,
        KeyOrder::Equal => true,
        KeyOrder::Greater => {
            proof {
                lemma_lex_asym(b@, a@);
            }
            false
        },
    }
}

} // verus!
