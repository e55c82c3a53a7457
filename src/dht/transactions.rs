use vstd::prelude::*;

use crate::common::id::Id;

verus! {

/// An outstanding query.
#[derive(Clone, Copy, Debug)]
pub struct Transaction {
    /// Locally chosen transaction identifier.
    pub tid: u32,
    /// The node the query went to.
    pub node_id: Id,
    /// Time, in seconds, after which the query counts as timed out.
    pub deadline: u64,
}

/// Whether a transaction with identifier `tid` is in `s`.
pub open spec fn has_tid(s: Seq<Transaction>, tid: u32) -> bool {
    exists|i: int| 0 <= i < s.len() && #[trigger] s[i].tid == tid
}

/// Whether no two transactions in `s` share an identifier.
pub open spec fn unique_tids(s: Seq<Transaction>) -> bool {
    forall|i: int, j: int| 0 <= i < s.len() && 0 <= j < s.len() && i != j ==> #[trigger] s[i].tid != #[trigger] s[j].tid
}

/// Whether `s` holds a transaction `tid` whose deadline is at or before `now`.
pub open spec fn expired_in(s: Seq<Transaction>, tid: u32, now: u64) -> bool {
    exists|i: int| 0 <= i < s.len() && #[trigger] s[i].tid == tid && s[i].deadline <= now
}

/// Whether no value occurs twice in `s`.
pub open spec fn no_duplicates(s: Seq<u32>) -> bool {
    forall|i: int, j: int| 0 <= i < s.len() && 0 <= j < s.len() && i != j ==> s[i] != s[j]
}

/// Once a transaction is completed and removed, no transaction with its
/// identifier is left, so a second completion finds nothing.
pub proof fn lemma_complete_at_most_once(s: Seq<Transaction>, i: int)
    requires
        unique_tids(s),
        0 <= i < s.len(),
    ensures
        !has_tid(s.remove(i), s[i].tid),
        unique_tids(s.remove(i)),
{
    let r = s.remove(i);
    assert forall|k: int| 0 <= k < r.len() implies #[trigger] r[k].tid != s[i].tid by {
        if k < i {
            assert(r[k] == s[k]);
        } else {
            assert(r[k] == s[k + 1]);
        }
    }
}

/// The table of outstanding queries, keyed by transaction identifier.
pub struct TransactionTable {
    pending: Vec<Transaction>,
    next_tid: u32,
}

impl TransactionTable {
    pub closed spec fn view(&self) -> Seq<Transaction> {
        self.pending@
    }

    /// The identifier the next registration will try.
    pub closed spec fn next(&self) -> u32 {
        self.next_tid
    }

    pub open spec fn wf(&self) -> bool {
        unique_tids(self@)
    }

    /// An empty table.
    pub fn new() -> (r: TransactionTable)
        ensures
            r.wf(),
            r@ == Seq::<Transaction>::empty(),
            r.next() == 0,
    {
        TransactionTable { pending: Vec::new(), next_tid: 0 }
    }

    /// How many queries are outstanding.
    pub fn len(&self) -> (r: usize)
        ensures
            r == self@.len(),
    {
        self.pending.len()
    }

    /// Whether a transaction with identifier `tid` is outstanding.
    pub fn contains(&self, tid: u32) -> (r: bool)
        ensures
            r == has_tid(self@, tid),
    {
        self.position(tid) < self.pending.len()
    }

    fn position(&self, tid: u32) -> (r: usize)
        ensures
            r <= self@.len(),
            r < self@.len() ==> self@[r as int].tid == tid,
            r == self@.len() ==> !has_tid(self@, tid),
    {
        let mut i: usize = 0;
        while i < self.pending.len()
            invariant
                0 <= i <= self@.len(),
                forall|k: int| 0 <= k < i ==> #[trigger] self@[k].tid != tid,
            decreases self@.len() - i,
        {
            if self.pending[i].tid == tid {
                return i;
            }
            i = i + 1;
        }
        i
    }

    /// Registers a query to `node_id` that times out at `deadline` under the next
    /// transaction identifier. The identifier is refused, and nothing registered,
    /// while a query with the same identifier is still outstanding.
    pub fn register(&mut self, node_id: Id, deadline: u64) -> (r: Option<u32>)
        requires
            old(self).wf(),
        ensures
            final(self).wf(),
            final(self).next() == (if old(self).next() == u32::MAX { 0 } else { old(self).next() + 1 }),
            has_tid(old(self)@, old(self).next()) ==> r is None && final(self)@ == old(self)@,
            !has_tid(old(self)@, old(self).next()) ==> r == Some(old(self).next())
                && final(self)@ == old(self)@.push(
                Transaction { tid: old(self).next(), node_id, deadline },
            ),
    {
        let tid = self.next_tid;
        self.next_tid = if tid == u32::MAX { 0 } else { tid + 1 };
        if self.position(tid) < self.pending.len() {
            return None;
        }
        self.pending.push(Transaction { tid, node_id, deadline });
        Some(tid)
    }

    /// Completes the transaction `tid` on a response or an error: it is removed
    /// and `true` returned if it was outstanding; otherwise nothing changes.
    pub fn complete(&mut self, tid: u32) -> (r: bool)
        requires
            old(self).wf(),
        ensures
            final(self).wf(),
            final(self).next() == old(self).next(),
            r == has_tid(old(self)@, tid),
            !has_tid(final(self)@, tid),
            r ==> exists|i: int|
                0 <= i < old(self)@.len() && old(self)@[i].tid == tid && final(self)@ == old(
                    self,
                )@.remove(i),
            !r ==> final(self)@ == old(self)@,
    {
        let p = self.position(tid);
        if p < self.pending.len() {
            proof {
                lemma_complete_at_most_once(self@, p as int);
            }
            self.pending.remove(p);
            true
        } else {
            false
        }
    }

    /// Removes every transaction whose deadline is at or before `now` and
    /// returns their identifiers, each once.
    pub fn sweep(&mut self, now: u64) -> (r: Vec<u32>)
        requires
            old(self).wf(),
        ensures
            final(self).wf(),
            final(self).next() == old(self).next(),
            no_duplicates(r@),
            forall|k: int| 0 <= k < final(self)@.len() ==> #[trigger] final(self)@[k].deadline > now
                && old(self)@.contains(final(self)@[k]),
            forall|k: int| 0 <= k < r@.len() ==> #[trigger] expired_in(old(self)@, r@[k], now),
            forall|k: int| 0 <= k < r@.len() ==> !has_tid(final(self)@, #[trigger] r@[k]),
            forall|i: int| 0 <= i < old(self)@.len() && #[trigger] old(self)@[i].deadline > now
                ==> final(self)@.contains(old(self)@[i]),
            forall|i: int| 0 <= i < old(self)@.len() && #[trigger] old(self)@[i].deadline <= now
                ==> r@.contains(old(self)@[i].tid),
    {
        let mut fired: Vec<u32> = Vec::new();
        let mut i: usize = 0;
        while i < self.pending.len()
            invariant
                0 <= i <= self@.len(),
                unique_tids(self@),
                unique_tids(old(self)@),
                self.next_tid == old(self).next_tid,
                no_duplicates(fired@),
                forall|k: int| 0 <= k < i ==> #[trigger] self@[k].deadline > now,
                forall|k: int| 0 <= k < self@.len() ==> old(self)@.contains(#[trigger] self@[k]),
                forall|k: int| 0 <= k < fired@.len() ==> #[trigger] expired_in(old(self)@, fired@[k], now),
                forall|k: int| 0 <= k < fired@.len() ==> !has_tid(self@, #[trigger] fired@[k]),
                forall|j: int| 0 <= j < old(self)@.len() && #[trigger] old(self)@[j].deadline > now
                    ==> self@.contains(old(self)@[j]),
                forall|j: int| 0 <= j < old(self)@.len() && #[trigger] old(self)@[j].deadline <= now
                    ==> fired@.contains(old(self)@[j].tid) || self@.contains(old(self)@[j]),
            decreases self@.len() - i,
        {
            if self.pending[i].deadline <= now {
                let ghost before = self@;
                let ghost fb = fired@;
                let t = self.pending[i];
                proof {
                    lemma_complete_at_most_once(before, i as int);
                    let j = choose|j: int| 0 <= j < old(self)@.len() && old(self)@[j] == t;
                    assert(old(self)@[j].tid == t.tid);
                    assert(expired_in(old(self)@, t.tid, now));
                    assert forall|k: int| 0 <= k < fb.len() implies fb[k] != t.tid by {
                        assert(!has_tid(before, fb[k]));
                        assert(before[i as int].tid == t.tid);
                    }
                }
                self.pending.remove(i);
                fired.push(t.tid);
                proof {
                    let after = self@;
                    assert forall|k: int| 0 <= k < after.len() implies old(self)@.contains(#[trigger] after[k]) by {
                        if k < i {
                            assert(after[k] == before[k]);
                        } else {
                            assert(after[k] == before[k + 1]);
                        }
                    }
                    assert forall|k: int| 0 <= k < fired@.len() implies !has_tid(after, #[trigger] fired@[k]) by {
                        if k < fb.len() {
                            assert(fired@[k] == fb[k]);
                            if has_tid(after, fb[k]) {
                                let w = choose|w: int| 0 <= w < after.len() && #[trigger] after[w].tid == fb[k];
                                if w < i {
                                    assert(after[w] == before[w]);
                                } else {
                                    assert(after[w] == before[w + 1]);
                                }
                            }
                        }
                    }
                    assert forall|j: int| 0 <= j < old(self)@.len() && #[trigger] old(self)@[j].deadline <= now
                        implies fired@.contains(old(self)@[j].tid) || after.contains(old(self)@[j]) by {
                        if fb.contains(old(self)@[j].tid) {
                            let w = choose|w: int| 0 <= w < fb.len() && fb[w] == old(self)@[j].tid;
                            assert(fired@[w] == fb[w]);
                        } else {
                            let w = choose|w: int| 0 <= w < before.len() && before[w] == old(self)@[j];
                            if w == i {
                                assert(fired@[fb.len() as int] == t.tid);
                            } else if w < i {
                                assert(after[w] == before[w]);
                            } else {
                                assert(after[w - 1] == before[w]);
                            }
                        }
                    }
                    assert forall|j: int| 0 <= j < old(self)@.len() && #[trigger] old(self)@[j].deadline > now
                        implies after.contains(old(self)@[j]) by {
                        let w = choose|w: int| 0 <= w < before.len() && before[w] == old(self)@[j];
                        assert(w != i);
                        if w < i {
                            assert(after[w] == before[w]);
                        } else {
                            assert(after[w - 1] == before[w]);
                        }
                    }
                }
            } else {
                i = i + 1;
            }
        }
        proof {
            assert forall|j: int| 0 <= j < old(self)@.len() && #[trigger] old(self)@[j].deadline <= now
                implies fired@.contains(old(self)@[j].tid) by {
                if self@.contains(old(self)@[j]) {
                    let w = choose|w: int| 0 <= w < self@.len() && self@[w] == old(self)@[j];
                    assert(self@[w].deadline > now);
                }
            }
        }
        fired
    }
}

} // verus!
