//! The key scanner: a lazy, forward-only sequence of matching keys.
//!
//! A scanner is created over the materialized, ordered key list that a
//! scan pulled from the record space — a point-in-time snapshot. Each
//! call to `next` produces the next key of that snapshot; once past the
//! end the scanner is exhausted for good and keeps answering `None`.
//! Mutations of the record space after scan start are never reflected in
//! an in-progress scan, and a fresh scan produces an independent
//! sequence.

use vstd::prelude::*;
use vstd::string::*;

verus! {

/// A draining cursor over a snapshot of matching keys.
pub struct IndexeddbScanner {
    keys: Vec<String>,
    pos: usize,
}

impl IndexeddbScanner {
    /// The snapshot of keys the scanner was created over; fixed for its
    /// whole lifetime.
    pub closed spec fn keys_seq(&self) -> Seq<Seq<char>> {
        self.keys.deep_view()
    }

    /// How many keys have been produced so far.
    pub closed spec fn position(&self) -> int {
        self.pos as int
    }

    /// The cursor never stands past the end of the snapshot.
    pub closed spec fn wf(&self) -> bool {
        self.pos <= self.keys@.len()
    }

    /// Wraps a materialized key list into a scanner standing at its
    /// start.
    pub fn new(keys: Vec<String>) -> (r: IndexeddbScanner)
        ensures
            r.wf(),
            r.keys_seq() == keys.deep_view(),
            r.position() == 0,
    {
        IndexeddbScanner { keys, pos: 0 }
    }

    /// Produces the next key of the snapshot, or `None` once every key
    /// has been handed out. Exhaustion is terminal: the snapshot and the
    /// position then stay as they are.
    pub fn next(&mut self) -> (r: Option<String>)
        requires
            old(self).wf(),
        ensures
            final(self).wf(),
            final(self).keys_seq() == old(self).keys_seq(),
            match r {
                Some(k) => {
                    &&& old(self).position() < old(self).keys_seq().len()
                    &&& k@ == old(self).keys_seq()[old(self).position()]
                    &&& final(self).position() == old(self).position() + 1
                },
                None => {
                    &&& old(self).position() == old(self).keys_seq().len()
                    &&& final(self).position() == old(self).position()
                },
            },
    {
        if self.pos < self.keys.len() {
            let k = self.keys[self.pos].clone();
            proof {
                assert(k@ == old(self).keys_seq()[old(self).position()]);
            }
            self.pos = self.pos + 1;
            Some(k)
        } else {
            None
        }
    }
}

} // verus!
