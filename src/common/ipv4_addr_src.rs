use vstd::prelude::*;

verus! {

/// First octet of an IPv4 address held as a big-endian `u32`.
pub open spec fn octet0(ip: u32) -> int {
    ip as int / 0x1000000
}

/// Second octet of an IPv4 address held as a big-endian `u32`.
pub open spec fn octet1(ip: u32) -> int {
    (ip as int / 0x10000) % 256
}

/// Whether an address may be accepted as this node's external address: not in
/// 0/8, loopback, private, link-local, shared (100.64/10), multicast or reserved ranges.
pub open spec fn is_globally_routable(ip: u32) -> bool {
    let a = octet0(ip);
    let b = octet1(ip);
    !(a == 0 || a == 10 || a == 127 || a >= 224 || (a == 169 && b == 254) || (a == 172 && 16
        <= b < 32) || (a == 192 && b == 168) || (a == 100 && 64 <= b < 128))
}

/// Index of the first entry for `addr` at or after `i`, or -1.
pub open spec fn index_from(s: Seq<(u32, u64)>, addr: u32, i: int) -> int
    decreases s.len() - i,
{
    if i < 0 || i >= s.len() {
        -1
    } else if s[i].0 == addr {
        i
    } else {
        index_from(s, addr, i + 1)
    }
}

/// The tally after one report of `addr`, with room for `max_tracked` addresses.
pub open spec fn tally_after_vote(s: Seq<(u32, u64)>, addr: u32, max_tracked: nat) -> Seq<
    (u32, u64),
> {
    let i = index_from(s, addr, 0);
    if !is_globally_routable(addr) {
        s
    } else if i >= 0 {
        if s[i].1 < u64::MAX {
            s.update(i, (addr, (s[i].1 + 1) as u64))
        } else {
            s
        }
    } else if s.len() < max_tracked {
        s.push((addr, 1u64))
    } else {
        s
    }
}

/// Whether `reporter` has already been counted for `addr`.
pub open spec fn has_report(reps: Seq<(u32, u32)>, addr: u32, reporter: u32) -> bool {
    exists|k: int| 0 <= k < reps.len() && #[trigger] reps[k] == (addr, reporter)
}

/// Whether a report of `addr` by `reporter` is counted: the address is routable,
/// the reporter has not reported it before, and it is tracked or there is room.
pub open spec fn vote_counts(
    s: Seq<(u32, u64)>,
    reps: Seq<(u32, u32)>,
    reporter: u32,
    addr: u32,
    max_tracked: nat,
) -> bool {
    is_globally_routable(addr) && !has_report(reps, addr, reporter) && (index_from(s, addr, 0)
        >= 0 || s.len() < max_tracked)
}

/// The tally and the counted reports after `reporter` reports `addr`.
pub open spec fn state_after_vote(
    s: Seq<(u32, u64)>,
    reps: Seq<(u32, u32)>,
    reporter: u32,
    addr: u32,
    max_tracked: nat,
) -> (Seq<(u32, u64)>, Seq<(u32, u32)>) {
    if vote_counts(s, reps, reporter, addr, max_tracked) {
        (tally_after_vote(s, addr, max_tracked), reps.push((addr, reporter)))
    } else {
        (s, reps)
    }
}

/// The first address, in order of first report, whose votes reach `quorum`,
/// looking from entry `i` on.
pub open spec fn consensus_from(s: Seq<(u32, u64)>, quorum: u64, i: int) -> Option<u32>
    decreases s.len() - i,
{
    if i < 0 || i >= s.len() {
        None
    } else if s[i].1 >= quorum {
        Some(s[i].0)
    } else {
        consensus_from(s, quorum, i + 1)
    }
}

/// Works out this node's external IPv4 address from what remote nodes report.
pub struct IPV4Consensus {
    /// Reported addresses with their vote counts, in order of first report.
    entries: Vec<(u32, u64)>,
    /// The (address, reporter) pairs that have been counted.
    reports: Vec<(u32, u32)>,
    min_consensus: u64,
    max_tracked: usize,
}

impl IPV4Consensus {
    pub closed spec fn tally(&self) -> Seq<(u32, u64)> {
        self.entries@
    }

    /// The (address, reporter) pairs counted so far.
    pub closed spec fn reported(&self) -> Seq<(u32, u32)> {
        self.reports@
    }

    pub closed spec fn quorum(&self) -> u64 {
        self.min_consensus
    }

    pub closed spec fn capacity(&self) -> nat {
        self.max_tracked as nat
    }

    /// A tally that accepts an address once `min_consensus` reports agree, and
    /// tracks at most `max_tracked` distinct addresses.
    pub fn new(min_consensus: u64, max_tracked: usize) -> (r: IPV4Consensus)
        ensures
            r.tally() == Seq::<(u32, u64)>::empty(),
            r.reported() == Seq::<(u32, u32)>::empty(),
            r.quorum() == min_consensus,
            r.capacity() == max_tracked,
    {
        IPV4Consensus { entries: Vec::new(), reports: Vec::new(), min_consensus, max_tracked }
    }

    /// Records that `reporter` (a remote node's IPv4 address) reports this node
    /// as reachable at `proposed`. Each reporter counts once per address.
    pub fn add_vote(&mut self, reporter: u32, proposed: u32)
        ensures
            (final(self).tally(), final(self).reported()) == state_after_vote(
                old(self).tally(),
                old(self).reported(),
                reporter,
                proposed,
                old(self).capacity(),
            ),
            final(self).quorum() == old(self).quorum(),
            final(self).capacity() == old(self).capacity(),
    {
        if !is_routable(proposed) {
            return;
        }
        let mut k: usize = 0;
        while k < self.reports.len()
            invariant
                0 <= k <= self.reports@.len(),
                forall|m: int| 0 <= m < k ==> #[trigger] self.reports@[m] != (proposed, reporter),
            decreases self.reports@.len() - k,
        {
            if self.reports[k].0 == proposed && self.reports[k].1 == reporter {
                return;
            }
            k = k + 1;
        }
        let known = self.index_of(proposed) < self.entries.len();
        if !known && self.entries.len() >= self.max_tracked {
            return;
        }
        self.tally_vote(proposed);
        self.reports.push((proposed, reporter));
    }

    /// Position of `addr` in the tally, or the tally's length.
    fn index_of(&self, addr: u32) -> (r: usize)
        ensures
            r <= self.entries@.len(),
            r < self.entries@.len() <==> index_from(self.entries@, addr, 0) >= 0,
    {
        let mut i: usize = 0;
        while i < self.entries.len()
            invariant
                0 <= i <= self.entries@.len(),
                index_from(self.entries@, addr, 0) == index_from(self.entries@, addr, i as int),
            decreases self.entries@.len() - i,
        {
            if self.entries[i].0 == addr {
                return i;
            }
            i = i + 1;
        }
        i
    }

    /// Counts one vote for `proposed` in the tally.
    fn tally_vote(&mut self, proposed: u32)
        ensures
            final(self).tally() == tally_after_vote(old(self).tally(), proposed, old(self).capacity()),
            final(self).reports@ == old(self).reports@,
            final(self).quorum() == old(self).quorum(),
            final(self).capacity() == old(self).capacity(),
    {
        if !is_routable(proposed) {
            return;
        }
        let mut i: usize = 0;
        while i < self.entries.len()
            invariant
                0 <= i <= self.entries@.len(),
                self.entries@ == old(self).entries@,
                self.reports@ == old(self).reports@,
                self.min_consensus == old(self).min_consensus,
                self.max_tracked == old(self).max_tracked,
                is_globally_routable(proposed),
                index_from(self.entries@, proposed, 0) == index_from(self.entries@, proposed, i as int),
            decreases self.entries@.len() - i,
        {
            let (a, votes) = self.entries[i];
            if a == proposed {
                if votes < u64::MAX {
                    self.entries.set(i, (a, votes + 1));
                }
                assert(self.entries@ =~= tally_after_vote(old(self).entries@, proposed, old(self).max_tracked as nat));
                return;
            }
            i = i + 1;
        }
        if self.entries.len() < self.max_tracked {
            self.entries.push((proposed, 1));
        }
    }

    /// The agreed external address, once one has reached the quorum.
    pub fn get_best_ipv4(&self) -> (r: Option<u32>)
        ensures
            r == consensus_from(self.tally(), self.quorum(), 0),
    {
        let mut i: usize = 0;
        while i < self.entries.len()
            invariant
                0 <= i <= self.entries@.len(),
                consensus_from(self.entries@, self.min_consensus, 0) == consensus_from(
                    self.entries@,
                    self.min_consensus,
                    i as int,
                ),
            decreases self.entries@.len() - i,
        {
            if self.entries[i].1 >= self.min_consensus {
                return Some(self.entries[i].0);
            }
            i = i + 1;
        }
        None
    }
}

/// Whether `ip` may be taken as this node's external address.
pub fn is_routable(ip: u32) -> (r: bool)
    ensures
        r == is_globally_routable(ip),
{
    let a = ip / 0x1000000;
    let b = (ip / 0x10000) % 256;
    !(a == 0 || a == 10 || a == 127 || a >= 224 || (a == 169 && b == 254) || (a == 172 && 16
        <= b && b < 32) || (a == 192 && b == 168) || (a == 100 && 64 <= b && b < 128))
}

/// With a quorum of two, reports of the same routable address from two distinct
/// reporters make it the consensus; the same reporter twice, or single reports of
/// two different addresses, give none.
pub proof fn lemma_quorum_of_two(a: u32, b: u32, r1: u32, r2: u32, max_tracked: nat)
    requires
        is_globally_routable(a),
        a != b,
        r1 != r2,
        max_tracked >= 1,
    ensures
        ({
            let s1 = state_after_vote(Seq::empty(), Seq::empty(), r1, a, max_tracked);
            let s2 = state_after_vote(s1.0, s1.1, r2, a, max_tracked);
            consensus_from(s2.0, 2, 0) == Some(a)
        }),
        ({
            let s1 = state_after_vote(Seq::empty(), Seq::empty(), r1, a, max_tracked);
            let s2 = state_after_vote(s1.0, s1.1, r1, a, max_tracked);
            consensus_from(s2.0, 2, 0) == None::<u32>
        }),
        ({
            let s1 = state_after_vote(Seq::empty(), Seq::empty(), r1, a, max_tracked);
            let s2 = state_after_vote(s1.0, s1.1, r2, b, max_tracked);
            consensus_from(s2.0, 2, 0) == None::<u32>
        }),
{
    let e = Seq::<(u32, u64)>::empty();
    let er = Seq::<(u32, u32)>::empty();
    assert(!has_report(er, a, r1));
    assert(index_from(e, a, 0) == -1);
    let s1 = state_after_vote(e, er, r1, a, max_tracked);
    assert(s1.0 == seq![(a, 1u64)]);
    assert(s1.1 == seq![(a, r1)]);
    assert(index_from(s1.0, a, 0) == 0);
    assert(!has_report(s1.1, a, r2)) by {
        if has_report(s1.1, a, r2) {
            let k = choose|k: int| 0 <= k < s1.1.len() && #[trigger] s1.1[k] == (a, r2);
            assert(s1.1[k] == (a, r1));
        }
    }
    let s2 = state_after_vote(s1.0, s1.1, r2, a, max_tracked);
    assert(s2.0 == seq![(a, 2u64)]);
    assert(consensus_from(s2.0, 2, 0) == Some(a));
    assert(has_report(s1.1, a, r1)) by {
        assert(s1.1[0] == (a, r1));
    }
    assert(consensus_from(s1.0, 2, 1) == None::<u32>);
    assert(consensus_from(s1.0, 2, 0) == None::<u32>);
    assert(index_from(s1.0, b, 1) == -1);
    assert(index_from(s1.0, b, 0) == -1);
    let s3 = state_after_vote(s1.0, s1.1, r2, b, max_tracked);
    if s3.0.len() == 2 {
        assert(s3.0 == seq![(a, 1u64), (b, 1u64)]);
        assert(consensus_from(s3.0, 2, 2) == None::<u32>);
        assert(consensus_from(s3.0, 2, 1) == None::<u32>);
    }
}

} // verus!
