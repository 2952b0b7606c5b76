//! The record space: the adapter's model of one named object store.
//!
//! A record space holds key-value records, keyed uniquely by their key
//! string and ordered by the store's lexicographic key order, as the
//! embedded database keeps them under the declared primary-key path. The
//! operations carry the semantics that the adapter's transactions must
//! realise: `get` looks a key up, `set` creates or overwrites in place,
//! `delete` removes and is a no-op on an absent key, and `keys_from`
//! materialises the ordered list of keys greater than or equal to a
//! prefix, the snapshot that a scan drains.

use vstd::prelude::*;
use vstd::map::*;
use vstd::string::*;
use crate::order::KeyOrder;
use crate::order::lex_cmp;
use crate::order::lex_leq;
use crate::order::lex_lt;
use crate::order::lemma_lex_irrefl;
use crate::order::lemma_lex_leq_lt_trans;
use crate::order::lemma_lex_lt_leq_trans;

verus! {

/// One key-value record: the key echoed beside the opaque byte payload,
/// exactly as the record space stores it under its primary-key path.
pub struct KeyValueRecord {
    pub k: String,
    pub v: Vec<u8>,
}

impl KeyValueRecord {
    /// Builds the record written on a `set`: the full path as the key,
    /// the raw payload as the value.
    pub fn new(k: String, v: Vec<u8>) -> (r: KeyValueRecord)
        ensures
            r.k@ == k@,
            r.v@ == v@,
    {
        KeyValueRecord { k, v }
    }
}

/// The records of a space are strictly ascending by key, which also
/// makes every key unique.
pub open spec fn sorted(s: Seq<KeyValueRecord>) -> bool {
    forall|i: int, j: int|
        0 <= i < j < s.len() ==> lex_lt(#[trigger] s[i].k@, #[trigger] s[j].k@)
}

/// Whether some record of `s` carries the key `k`.
pub open spec fn has_key(s: Seq<KeyValueRecord>, k: Seq<char>) -> bool {
    exists|i: int| 0 <= i < s.len() && #[trigger] s[i].k@ == k
}

/// The index of the record carrying `k`, meaningful when `has_key` holds
/// of a sorted sequence.
pub open spec fn index_of(s: Seq<KeyValueRecord>, k: Seq<char>) -> int {
    choose|i: int| 0 <= i < s.len() && #[trigger] s[i].k@ == k
}

/// In a sorted sequence the key decides the index.
proof fn lemma_unique_idx(s: Seq<KeyValueRecord>, i: int, k: Seq<char>)
    requires
        sorted(s),
        0 <= i < s.len(),
        s[i].k@ == k,
    ensures
        index_of(s, k) == i,
        has_key(s, k),
{
    assert(has_key(s, k));
    let j = index_of(s, k);
    if j < i {
        assert(lex_lt(s[j].k@, s[i].k@));
        lemma_lex_irrefl(k);
    } else if j > i {
        assert(lex_lt(s[i].k@, s[j].k@));
        lemma_lex_irrefl(k);
    }
}

/// A named container of key-value records: the model of the object store
/// that one adapter instance reads and writes.
pub struct RecordSpace {
    records: Vec<KeyValueRecord>,
}

impl View for RecordSpace {
    type V = Map<Seq<char>, Seq<u8>>;

    /// A record space is read as the finite map from each stored key to
    /// its payload.
    closed spec fn view(&self) -> Map<Seq<char>, Seq<u8>> {
        Map::new(
            |k: Seq<char>| has_key(self.records@, k),
            |k: Seq<char>| self.records@[index_of(self.records@, k)].v@,
        )
    }
}

impl RecordSpace {
    /// Well-formedness: the records stand in strict key order.
    pub closed spec fn wf(&self) -> bool {
        sorted(self.records@)
    }

    /// An empty record space, as the store declares it on first creation:
    /// no record exists until the first `set`.
    pub fn new() -> (r: RecordSpace)
        ensures
            r.wf(),
            r@ == Map::<Seq<char>, Seq<u8>>::empty(),
    {
        let r = RecordSpace { records: Vec::new() };
        proof {
            assert(r@ =~= Map::<Seq<char>, Seq<u8>>::empty());
        }
        r
    }

    /// The first index whose key is not below `path`; every key before it
    /// is strictly below `path`.
    fn find_lower(&self, path: &str) -> (i: usize)
        requires
            self.wf(),
        ensures
            i <= self.records@.len(),
            forall|j: int| 0 <= j < i ==> lex_lt(#[trigger] self.records@[j].k@, path@),
            i < self.records@.len() ==> lex_leq(path@, self.records@[i as int].k@),
    {
        let n: usize = self.records.len();
        let mut i: usize = 0;
        while i < n
            invariant
                self.wf(),
                n == self.records@.len(),
                i <= n,
                forall|j: int| 0 <= j < i ==> lex_lt(#[trigger] self.records@[j].k@, path@),
            decreases n - i,
        {
            match lex_cmp(self.records[i].k.as_str(), path) {
                KeyOrder::Less => {
                    i = i + 1;
                },
                KeyOrder::Equal => {
                    return i;
                },
                KeyOrder::Greater => {
                    return i;
                },
            }
        }
        i
    }

    /// Looks a key up. Absence is a successful outcome, not a failure:
    /// the result is `None` exactly when no record carries the key.
    pub fn get(&self, path: &str) -> (r: Option<Vec<u8>>)
        requires
            self.wf(),
        ensures
            match r {
                Some(v) => self@.contains_key(path@) && v@ == self@[path@],
                None => !self@.contains_key(path@),
            },
    {
        let i = self.find_lower(path);
        if i < self.records.len() {
            match lex_cmp(self.records[i].k.as_str(), path) {
                KeyOrder::Equal => {
                    let v = self.records[i].v.clone();
                    proof {
                        lemma_unique_idx(self.records@, i as int, path@);
                    }
                    Some(v)
                },
                _ => {
                    proof {
                        self.lemma_absent_at_lower(path@, i as int);
                    }
                    None
                },
            }
        } else {
            proof {
                self.lemma_absent_at_lower(path@, i as int);
            }
            None
        }
    }

    /// When every key before `i` is strictly below `path` and the key at
    /// `i`, if any, differs from `path` while not being below it, no
    /// record carries `path`.
    proof fn lemma_absent_at_lower(&self, path: Seq<char>, i: int)
        requires
            self.wf(),
            0 <= i <= self.records@.len(),
            forall|j: int| 0 <= j < i ==> lex_lt(#[trigger] self.records@[j].k@, path),
            i < self.records@.len() ==> lex_leq(path, self.records@[i].k@),
            i < self.records@.len() ==> self.records@[i].k@ != path,
        ensures
            !self@.contains_key(path),
    {
        let s = self.records@;
        assert forall|j: int| 0 <= j < s.len() implies s[j].k@ != path by {
            if j < i {
                lemma_lex_irrefl(path);
            } else if j == i {
            } else {
                assert(lex_lt(s[i].k@, s[j].k@));
                lemma_lex_leq_lt_trans(path, s[i].k@, s[j].k@);
                lemma_lex_irrefl(path);
            }
        }
    }

    /// Creates or overwrites: after the call the space maps `path` to
    /// `value` and every other key to what it held before.
    pub fn set(&mut self, path: &str, value: Vec<u8>)
        requires
            old(self).wf(),
        ensures
            final(self).wf(),
            final(self)@ == old(self)@.insert(path@, value@),
    {
        let ghost s0 = self.records@;
        let i = self.find_lower(path);
        let rec = KeyValueRecord::new(path.to_owned(), value);
        let mut overwrote = false;
        if i < self.records.len() {
            match lex_cmp(self.records[i].k.as_str(), path) {
                KeyOrder::Equal => {
                    let _old_rec = self.records.remove(i);
                    overwrote = true;
                },
                _ => {},
            }
        }
        let ghost s1 = self.records@;
        self.records.insert(i, rec);
        proof {
            let s2 = self.records@;
            let n0 = s0.len() as int;
            let ii = i as int;
            if overwrote {
                assert(s1 =~= s0.remove(ii));
                // the key at ii was path; removing it leaves the lower part
                // strictly below path and the upper part strictly above.
                assert forall|j: int| ii <= j < s1.len() implies lex_lt(
                    path@,
                    #[trigger] s1[j].k@,
                ) by {
                    assert(s1[j] == s0[j + 1]);
                    assert(lex_lt(s0[ii].k@, s0[j + 1].k@));
                    assert(s0[ii].k@ == path@);
                }
            } else {
                assert(s1 == s0);
                assert forall|j: int| ii <= j < s1.len() implies lex_lt(
                    path@,
                    #[trigger] s1[j].k@,
                ) by {
                    if ii < n0 {
                        assert(lex_leq(path@, s0[ii].k@));
                        assert(s0[ii].k@ != path@);
                        if j > ii {
                            assert(lex_lt(s0[ii].k@, s0[j].k@));
                            lemma_lex_leq_lt_trans(path@, s0[ii].k@, s0[j].k@);
                        }
                    }
                }
            }
            // on both paths: s1 sorted, keys below ii strictly below path,
            // keys from ii on strictly above path, and s2 = s1.insert(ii, rec)
            assert(sorted(s1));
            assert(s2 =~= s1.insert(ii, rec));
            assert forall|p: int, q: int| 0 <= p < q < s2.len() implies lex_lt(
                #[trigger] s2[p].k@,
                #[trigger] s2[q].k@,
            ) by {
                if q < ii {
                    assert(s2[p] == s1[p] && s2[q] == s1[q]);
                } else if p < ii && q == ii {
                    assert(s2[p] == s1[p] && s2[q] == rec);
                } else if p < ii && q > ii {
                    assert(s2[p] == s1[p] && s2[q] == s1[q - 1]);
                    if q - 1 == p {
                        assert(false);
                    } else {
                        assert(lex_lt(s1[p].k@, s1[q - 1].k@));
                    }
                } else if p == ii {
                    assert(s2[p] == rec && s2[q] == s1[q - 1]);
                    assert(lex_lt(path@, s1[q - 1].k@));
                } else {
                    assert(s2[p] == s1[p - 1] && s2[q] == s1[q - 1]);
                    assert(lex_lt(s1[p - 1].k@, s1[q - 1].k@));
                }
            }
            assert(sorted(s2));
            // the map view gained exactly the binding of path to value
            let m_new = self@;
            let m_want = old(self)@.insert(path@, value@);
            assert forall|k: Seq<char>| #[trigger] m_new.contains_key(k)
                <==> m_want.contains_key(k) by {
                if k == path@ {
                    lemma_unique_idx(s2, ii, k);
                } else {
                    if has_key(s2, k) {
                        let j = index_of(s2, k);
                        if j < ii {
                            assert(s0[j].k@ == k);
                            assert(has_key(s0, k));
                        } else {
                            assert(s2[j] == s1[j - 1]);
                            if overwrote {
                                assert(s1[j - 1] == s0[j]);
                                assert(has_key(s0, k));
                            } else {
                                assert(has_key(s0, k));
                            }
                        }
                    }
                    if has_key(s0, k) {
                        let j = index_of(s0, k);
                        assert(s0[j].k@ == k);
                        if overwrote {
                            if j < ii {
                                assert(s2[j] == s1[j] && s1[j] == s0[j]);
                                assert(has_key(s2, k));
                            } else if j == ii {
                                assert(s0[ii].k@ == path@);
                            } else {
                                assert(s2[j] == s1[j - 1] && s1[j - 1] == s0[j]);
                                assert(has_key(s2, k));
                            }
                        } else {
                            if j < ii {
                                assert(s2[j] == s1[j]);
                                assert(has_key(s2, k));
                            } else {
                                assert(s2[j + 1] == s1[j]);
                                assert(has_key(s2, k));
                            }
                        }
                    }
                }
            }
            assert forall|k: Seq<char>| m_new.contains_key(k) implies #[trigger] m_new[k]
                == m_want[k] by {
                if k == path@ {
                    lemma_unique_idx(s2, ii, k);
                    assert(m_new[k] == rec.v@);
                } else {
                    let j = index_of(s2, k);
                    assert(0 <= j < s2.len() && s2[j].k@ == k);
                    if j < ii {
                        assert(s2[j] == s1[j] && s1[j] == s0[j]);
                        lemma_unique_idx(s0, j, k);
                        lemma_unique_idx(s2, j, k);
                    } else if j == ii {
                        assert(s2[j] == rec);
                        assert(false);
                    } else {
                        assert(s2[j] == s1[j - 1]);
                        if overwrote {
                            assert(s1[j - 1] == s0[j]);
                            lemma_unique_idx(s0, j, k);
                        } else {
                            assert(s1[j - 1] == s0[j - 1]);
                            lemma_unique_idx(s0, j - 1, k);
                        }
                        lemma_unique_idx(s2, j, k);
                    }
                }
            }
            assert(m_new =~= m_want);
        }
    }

    /// Removes the record carrying `path`, if any. Deleting an absent key
    /// is a no-op, not an error.
    pub fn delete(&mut self, path: &str)
        requires
            old(self).wf(),
        ensures
            final(self).wf(),
            final(self)@ == old(self)@.remove(path@),
    {
        let ghost s0 = self.records@;
        let i = self.find_lower(path);
        let mut removed = false;
        if i < self.records.len() {
            match lex_cmp(self.records[i].k.as_str(), path) {
                KeyOrder::Equal => {
                    let _old_rec = self.records.remove(i);
                    removed = true;
                },
                _ => {},
            }
        }
        proof {
            let s2 = self.records@;
            let ii = i as int;
            if removed {
                assert(s2 =~= s0.remove(ii));
                assert forall|p: int, q: int| 0 <= p < q < s2.len() implies lex_lt(
                    #[trigger] s2[p].k@,
                    #[trigger] s2[q].k@,
                ) by {
                    if q < ii {
                        assert(s2[p] == s0[p] && s2[q] == s0[q]);
                    } else if p < ii {
                        assert(s2[p] == s0[p] && s2[q] == s0[q + 1]);
                        assert(lex_lt(s0[p].k@, s0[q + 1].k@));
                    } else {
                        assert(s2[p] == s0[p + 1] && s2[q] == s0[q + 1]);
                        assert(lex_lt(s0[p + 1].k@, s0[q + 1].k@));
                    }
                }
                assert(sorted(s2));
                let m_new = self@;
                let m_want = old(self)@.remove(path@);
                assert forall|k: Seq<char>| #[trigger] m_new.contains_key(k)
                    <==> m_want.contains_key(k) by {
                    if k == path@ {
                        if has_key(s2, k) {
                            let j = index_of(s2, k);
                            if j < ii {
                                assert(s2[j] == s0[j]);
                                assert(lex_lt(s0[j].k@, path@));
                                lemma_lex_irrefl(path@);
                            } else {
                                assert(s2[j] == s0[j + 1]);
                                assert(lex_lt(s0[ii].k@, s0[j + 1].k@));
                                assert(s0[ii].k@ == path@);
                                lemma_lex_irrefl(path@);
                            }
                        }
                    } else {
                        if has_key(s2, k) {
                            let j = index_of(s2, k);
                            if j < ii {
                                assert(s2[j] == s0[j]);
                            } else {
                                assert(s2[j] == s0[j + 1]);
                            }
                            assert(has_key(s0, k));
                        }
                        if has_key(s0, k) {
                            let j = index_of(s0, k);
                            assert(s0[j].k@ == k);
                            if j < ii {
                                assert(s2[j] == s0[j]);
                                assert(has_key(s2, k));
                            } else if j == ii {
                                assert(s0[ii].k@ == path@);
                            } else {
                                assert(s2[j - 1] == s0[j]);
                                assert(has_key(s2, k));
                            }
                        }
                    }
                }
                assert forall|k: Seq<char>| m_new.contains_key(k) implies #[trigger] m_new[k]
                    == m_want[k] by {
                    let j = index_of(s2, k);
                    assert(0 <= j < s2.len() && s2[j].k@ == k);
                    if j < ii {
                        assert(s2[j] == s0[j]);
                        lemma_unique_idx(s0, j, k);
                        lemma_unique_idx(s2, j, k);
                    } else {
                        assert(s2[j] == s0[j + 1]);
                        lemma_unique_idx(s0, j + 1, k);
                        lemma_unique_idx(s2, j, k);
                    }
                }
                assert(m_new =~= m_want);
            } else {
                if i < s0.len() {
                    assert(lex_leq(path@, s0[ii].k@));
                    assert(s0[ii].k@ != path@);
                }
                self.lemma_absent_at_lower(path@, ii);
                assert(!old(self)@.contains_key(path@));
                assert(self@ =~= old(self)@.remove(path@));
            }
        }
    }

    /// Materialises the ordered list of keys greater than or equal to
    /// `path`: the point-in-time snapshot that a scan drains. The range
    /// is open-ended upward, so keys lexicographically beyond the prefix
    /// family are included too.
    pub fn keys_from(&self, path: &str) -> (r: Vec<String>)
        requires
            self.wf(),
        ensures
            forall|p: int, q: int|
                0 <= p < q < r@.len() ==> lex_lt(#[trigger] r@[p]@, #[trigger] r@[q]@),
            forall|k: Seq<char>|
                #[trigger] r.deep_view().contains(k) <==> self@.contains_key(k) && lex_leq(
                    path@,
                    k,
                ),
    {
        let start = self.find_lower(path);
        let n: usize = self.records.len();
        let mut out: Vec<String> = Vec::new();
        let mut i: usize = start;
        while i < n
            invariant
                self.wf(),
                n == self.records@.len(),
                start <= i <= n,
                forall|j: int| 0 <= j < start ==> lex_lt(#[trigger] self.records@[j].k@, path@),
                start < n ==> lex_leq(path@, self.records@[start as int].k@),
                out@.len() == i - start,
                forall|j: int|
                    0 <= j < out@.len() ==> #[trigger] out@[j]@ == self.records@[start + j].k@,
            decreases n - i,
        {
            out.push(self.records[i].k.clone());
            i = i + 1;
        }
        proof {
            let s = self.records@;
            let st = start as int;
            assert forall|j: int| st <= j < s.len() implies lex_leq(
                path@,
                #[trigger] s[j].k@,
            ) by {
                if j > st {
                    assert(lex_lt(s[st].k@, s[j].k@));
                    lemma_lex_leq_lt_trans(path@, s[st].k@, s[j].k@);
                }
            }
            assert forall|k: Seq<char>| #[trigger] out.deep_view().contains(k) implies self
                @.contains_key(k) && lex_leq(path@, k) by {
                let j = choose|j: int| 0 <= j < out.deep_view().len() && out.deep_view()[j] == k;
                assert(out@[j]@ == s[st + j].k@);
                lemma_unique_idx(s, st + j, k);
            }
            assert forall|k: Seq<char>| self@.contains_key(k) && lex_leq(path@, k)
                implies #[trigger] out.deep_view().contains(k) by {
                let j = index_of(s, k);
                assert(0 <= j < s.len() && s[j].k@ == k);
                if j < st {
                    assert(lex_lt(s[j].k@, path@));
                    lemma_lex_lt_leq_trans(s[j].k@, path@, k);
                    lemma_lex_irrefl(k);
                } else {
                    assert(out@[j - st]@ == k);
                    assert(out.deep_view()[j - st] == k);
                }
            }
        }
        out
    }
}

} // verus!
