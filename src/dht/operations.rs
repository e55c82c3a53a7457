use vstd::prelude::*;

use crate::common::id::{Id, be_lt, ids_equal, lemma_be_lt_transitive, lemma_be_lt_irreflexive};
use crate::storage::node_bucket_storage::{Node, sorted_by_distance};

verus! {

/// Bytes per peer in a compact peer list: a big-endian IPv4 address and port.
pub const COMPACT_PEER_LEN: usize = 6;

/// Why an operation failed.
#[derive(Debug, PartialEq, Eq, Structural)]
pub enum OperationError {
    /// The node is read-only and must not change remote state.
    ReadOnly,
    /// No node answered in time.
    NoResponse,
}

/// Bytes per node in a compact node list: identifier, IPv4 address, port.
pub const COMPACT_NODE_LEN: usize = 26;

/// A node learned from a compact node list: identifier, IPv4 address (big-endian), port.
pub type NodeAddr = (Id, u32, u16);

/// A peer address: IPv4 address (big-endian) and port.
pub type PeerAddr = (u32, u16);

/// The `k`-th peer of a compact peer list.
pub open spec fn compact_peer(b: Seq<u8>, k: int) -> PeerAddr {
    let o = 6 * k;
    (
        (b[o] as int * 0x1000000 + b[o + 1] as int * 0x10000 + b[o + 2] as int * 0x100 + b[o
            + 3] as int) as u32,
        (b[o + 4] as int * 0x100 + b[o + 5] as int) as u16,
    )
}

/// Checks, before any query goes out, that an announce may run: a read-only
/// node refuses it.
pub fn check_announce_allowed(read_only: bool) -> (r: Result<(), OperationError>)
    ensures
        read_only <==> r == Err::<(), OperationError>(OperationError::ReadOnly),
        !read_only <==> r is Ok,
{
    if read_only {
        Err(OperationError::ReadOnly)
    } else {
        Ok(())
    }
}

/// The result of an announce: the nodes that acknowledged it, or an error when none did.
pub fn announce_outcome<T>(acknowledged: Vec<T>) -> (r: Result<Vec<T>, OperationError>)
    ensures
        acknowledged@.len() == 0 <==> r == Err::<Vec<T>, OperationError>(OperationError::NoResponse),
        r matches Ok(v) ==> v@ == acknowledged@,
{
    if acknowledged.len() == 0 {
        Err(OperationError::NoResponse)
    } else {
        Ok(acknowledged)
    }
}

/// Adds `p` to `peers` unless it is already there.
pub fn add_peer(peers: &mut Vec<PeerAddr>, p: PeerAddr)
    ensures
        old(peers)@.contains(p) ==> final(peers)@ == old(peers)@,
        !old(peers)@.contains(p) ==> final(peers)@ == old(peers)@.push(p),
{
    let mut i: usize = 0;
    while i < peers.len()
        invariant
            0 <= i <= peers@.len(),
            peers@ == old(peers)@,
            forall|k: int| 0 <= k < i ==> peers@[k] != p,
        decreases peers@.len() - i,
    {
        if peers[i].0 == p.0 && peers[i].1 == p.1 {
            return;
        }
        i = i + 1;
    }
    peers.push(p);
}

/// Adds the peers of a compact peer list to `peers`, leaving out addresses
/// already there. A trailing partial entry is ignored.
pub fn merge_compact_peers(peers: &mut Vec<PeerAddr>, compact: &[u8])
    requires
        forall|i: int, j: int| 0 <= i < j < old(peers)@.len() ==> old(peers)@[i] != old(peers)@[j],
    ensures
        forall|i: int, j: int| 0 <= i < j < final(peers)@.len() ==> final(peers)@[i] != final(peers)@[j],
        forall|q: PeerAddr| #[trigger] final(peers)@.contains(q) <==> (old(peers)@.contains(q) || exists|k: int|
            0 <= k < compact@.len() / 6 && compact_peer(compact@, k) == q),
{
    let n = compact.len() / COMPACT_PEER_LEN;
    let mut k: usize = 0;
    while k < n
        invariant
            n == compact.len() / 6,
            0 <= k <= n,
            forall|i: int, j: int| 0 <= i < j < peers@.len() ==> peers@[i] != peers@[j],
            forall|q: PeerAddr| #[trigger] peers@.contains(q) <==> (old(peers)@.contains(q) || exists|m: int|
                0 <= m < k && compact_peer(compact@, m) == q),
        decreases n - k,
    {
        assert(6 * k + 6 <= compact.len()) by (nonlinear_arith)
            requires
                k < n,
                n == compact.len() / 6,
        ;
        let o = 6 * k;
        let ip: u32 = (compact[o] as u32) * 0x1000000 + (compact[o + 1] as u32) * 0x10000 + (
        compact[o + 2] as u32) * 0x100 + compact[o + 3] as u32;
        let port: u16 = (compact[o + 4] as u16) * 0x100 + compact[o + 5] as u16;
        let p = (ip, port);
        assert(p == compact_peer(compact@, k as int));
        let ghost before = peers@;
        add_peer(peers, p);
        proof {
            assert forall|q: PeerAddr| #[trigger] peers@.contains(q) <==> (old(peers)@.contains(q) || exists|m: int|
                0 <= m < k + 1 && compact_peer(compact@, m) == q) by {
                if peers@.contains(q) && !before.contains(q) {
                    assert(q == p);
                }
                if exists|m: int| 0 <= m < k + 1 && compact_peer(compact@, m) == q {
                    let m = choose|m: int| 0 <= m < k + 1 && compact_peer(compact@, m) == q;
                    if m == k {
                        assert(peers@[peers@.len() - 1] == p || before.contains(p));
                    } else {
                        assert(before.contains(q));
                    }
                    if before.contains(q) {
                        let w = choose|w: int| 0 <= w < before.len() && before[w] == q;
                        assert(peers@[w] == q);
                    }
                }
                if before.contains(q) {
                    let w = choose|w: int| 0 <= w < before.len() && before[w] == q;
                    assert(peers@[w] == q);
                }
            }
        }
        k = k + 1;
    }
}

/// Where `n` goes in a list sorted by distance to `target`, looking from `i` on:
/// before the first node that is farther than `n`.
pub open spec fn insert_pos(s: Seq<Node>, n: Node, target: Id, i: int) -> int
    decreases s.len() - i,
{
    if i < 0 || i >= s.len() {
        s.len() as int
    } else if be_lt(target.distance_spec(n.id), target.distance_spec(s[i].id)) {
        i
    } else {
        insert_pos(s, n, target, i + 1)
    }
}

/// Whether `s` holds a node with identifier `id`.
pub open spec fn has_id(s: Seq<Node>, id: Seq<u8>) -> bool {
    exists|k: int| 0 <= k < s.len() && #[trigger] s[k].id@ == id
}

/// The lookup shortlist after learning of `n`: unchanged if `n` is already
/// there, else `n` takes its place by distance and the list is cut to `width`.
pub open spec fn shortlist_after(s: Seq<Node>, n: Node, target: Id, width: nat) -> Seq<Node> {
    if has_id(s, n.id@) {
        s
    } else {
        let t = s.insert(insert_pos(s, n, target, 0), n);
        if t.len() > width {
            t.subrange(0, width as int)
        } else {
            t
        }
    }
}

proof fn lemma_insert_pos(s: Seq<Node>, n: Node, target: Id, i: int)
    requires
        0 <= i <= s.len(),
    ensures
        i <= insert_pos(s, n, target, i) <= s.len(),
        forall|k: int|
            i <= k < insert_pos(s, n, target, i) ==> !be_lt(
                target.distance_spec(n.id),
                #[trigger] target.distance_spec(s[k].id),
            ),
        insert_pos(s, n, target, i) < s.len() ==> be_lt(
            target.distance_spec(n.id),
            target.distance_spec(s[insert_pos(s, n, target, i)].id),
        ),
    decreases s.len() - i,
{
    if i < s.len() {
        lemma_insert_pos(s, n, target, i + 1);
    }
}

/// Adds a newly learned node to a lookup shortlist kept sorted by distance to
/// `target`, without repeated identifiers, and at most `width` long.
pub fn add_to_shortlist(shortlist: &mut Vec<Node>, n: Node, target: &Id, width: usize)
    requires
        sorted_by_distance(*target, old(shortlist)@),
    ensures
        final(shortlist)@ == shortlist_after(old(shortlist)@, n, *target, width as nat),
        sorted_by_distance(*target, final(shortlist)@),
        old(shortlist)@.len() <= width ==> final(shortlist)@.len() <= width,
{
    let mut i: usize = 0;
    while i < shortlist.len()
        invariant
            0 <= i <= shortlist@.len(),
            shortlist@ == old(shortlist)@,
            sorted_by_distance(*target, old(shortlist)@),
            forall|k: int| 0 <= k < i ==> #[trigger] shortlist@[k].id@ != n.id@,
        decreases shortlist@.len() - i,
    {
        if ids_equal(&shortlist[i].id, &n.id) {
            return;
        }
        i = i + 1;
    }
    let ghost s = shortlist@;
    assert(!has_id(s, n.id@));
    let mut p: usize = 0;
    let mut found = false;
    while !found && p < shortlist.len()
        invariant
            0 <= p <= s.len(),
            shortlist@ == s,
            sorted_by_distance(*target, s),
            found ==> insert_pos(s, n, *target, 0) == p,
            !found ==> insert_pos(s, n, *target, 0) == insert_pos(s, n, *target, p as int),
        decreases s.len() - p, if found { 0int } else { 1int },
    {
        if target.is_closer(&n.id, &shortlist[p].id) {
            assert(insert_pos(s, n, *target, p as int) == p);
            found = true;
        } else {
            p = p + 1;
        }
    }
    proof {
        lemma_insert_pos(s, n, *target, 0);
        if p == s.len() {
            assert(insert_pos(s, n, *target, p as int) == s.len());
        }
    }
    assert(p == insert_pos(s, n, *target, 0));
    shortlist.insert(p, n);
    let ghost t = shortlist@;
    proof {
        assert forall|k: int| 0 <= k < t.len() - 1 implies !be_lt(
            #[trigger] target.distance_spec(t[k + 1].id),
            target.distance_spec(t[k].id),
        ) by {
            if k + 1 < p {
                assert(t[k] == s[k] && t[k + 1] == s[k + 1]);
                assert(!be_lt(target.distance_spec(s[k + 1].id), target.distance_spec(s[k].id)));
            } else if k + 1 == p {
                assert(t[k] == s[k] && t[k + 1] == n);
            } else if k == p {
                assert(t[k] == n && t[k + 1] == s[k]);
                let a = target.distance_spec(n.id);
                let b = target.distance_spec(s[k].id);
                if be_lt(b, a) {
                    lemma_be_lt_transitive(a, b, a, 0);
                    lemma_be_lt_irreflexive(a, 0);
                }
            } else {
                assert(t[k] == s[k - 1] && t[k + 1] == s[k]);
                let j = k - 1;
                assert(!be_lt(target.distance_spec(s[j + 1].id), target.distance_spec(s[j].id)));
            }
        }
    }
    if shortlist.len() > width {
        shortlist.truncate(width);
        assert(shortlist@ =~= t.subrange(0, width as int));
    }
}

/// The `k`-th entry of a compact node list.
pub open spec fn compact_node_ok(b: Seq<u8>, k: int, n: NodeAddr) -> bool {
    let o = 26 * k;
    &&& n.0@ == b.subrange(o, o + 20)
    &&& n.1 == (b[o + 20] as int * 0x1000000 + b[o + 21] as int * 0x10000 + b[o + 22] as int
        * 0x100 + b[o + 23] as int) as u32
    &&& n.2 == (b[o + 24] as int * 0x100 + b[o + 25] as int) as u16
}

/// Decodes a compact node list. A trailing partial entry is ignored.
pub fn parse_compact_nodes(b: &[u8]) -> (r: Vec<NodeAddr>)
    ensures
        r@.len() == b@.len() / 26,
        forall|k: int| 0 <= k < r@.len() ==> compact_node_ok(b@, k, #[trigger] r@[k]),
{
    let n = b.len() / COMPACT_NODE_LEN;
    let mut r: Vec<NodeAddr> = Vec::new();
    let mut k: usize = 0;
    while k < n
        invariant
            n == b.len() / 26,
            0 <= k <= n,
            r@.len() == k,
            forall|m: int| 0 <= m < k ==> compact_node_ok(b@, m, #[trigger] r@[m]),
        decreases n - k,
    {
        assert(26 * k + 26 <= b.len()) by (nonlinear_arith)
            requires
                k < n,
                n == b.len() / 26,
        ;
        let o = 26 * k;
        let mut id = [0u8; 20];
        let mut i: usize = 0;
        while i < 20
            invariant
                o + 26 <= b.len(),
                0 <= i <= 20,
                forall|j: int| 0 <= j < i ==> id@[j] == b@[o + j],
            decreases 20 - i,
        {
            id[i] = b[o + i];
            i = i + 1;
        }
        let ip: u32 = (b[o + 20] as u32) * 0x1000000 + (b[o + 21] as u32) * 0x10000 + (b[o
            + 22] as u32) * 0x100 + b[o + 23] as u32;
        let port: u16 = (b[o + 24] as u16) * 0x100 + b[o + 25] as u16;
        let entry = (Id { bytes: id }, ip, port);
        assert(entry.0@ =~= b@.subrange(o as int, o + 20));
        r.push(entry);
        assert(compact_node_ok(b@, k as int, r@[k as int]));
        k = k + 1;
    }
    r
}

/// Whether `q` holds the identifier `id`.
pub open spec fn queried_has(q: Seq<Id>, id: Seq<u8>) -> bool {
    exists|k: int| 0 <= k < q.len() && #[trigger] q[k]@ == id
}

/// The nodes among the first `i` of `s` that are not in `q`, in order.
pub open spec fn unqueried_prefix(s: Seq<Node>, q: Seq<Id>, i: int) -> Seq<Node>
    decreases i,
{
    if i <= 0 || i > s.len() {
        Seq::empty()
    } else if queried_has(q, s[i - 1].id@) {
        unqueried_prefix(s, q, i - 1)
    } else {
        unqueried_prefix(s, q, i - 1).push(s[i - 1])
    }
}

/// The next nodes to query: the first `alpha` nodes of the shortlist `s`, in
/// order, that are not in `q`.
pub open spec fn next_to_query(s: Seq<Node>, q: Seq<Id>, alpha: nat) -> Seq<Node> {
    let u = unqueried_prefix(s, q, s.len() as int);
    if u.len() > alpha {
        u.subrange(0, alpha as int)
    } else {
        u
    }
}

proof fn lemma_unqueried_grows(s: Seq<Node>, q: Seq<Id>, i: int, j: int)
    requires
        0 <= i <= j <= s.len(),
    ensures
        unqueried_prefix(s, q, i).len() <= unqueried_prefix(s, q, j).len(),
        unqueried_prefix(s, q, i) == unqueried_prefix(s, q, j).subrange(
            0,
            unqueried_prefix(s, q, i).len() as int,
        ),
    decreases j - i,
{
    if i < j {
        lemma_unqueried_grows(s, q, i, j - 1);
        let a = unqueried_prefix(s, q, i);
        let b = unqueried_prefix(s, q, j - 1);
        let c = unqueried_prefix(s, q, j);
        if !queried_has(q, s[j - 1].id@) {
            assert(c == b.push(s[j - 1]));
            assert(a =~= c.subrange(0, a.len() as int));
        }
    } else {
        assert(unqueried_prefix(s, q, i) =~= unqueried_prefix(s, q, i).subrange(0, unqueried_prefix(s, q, i).len() as int));
    }
}

/// Whether `id` is in `q`.
fn is_queried(q: &Vec<Id>, id: &Id) -> (r: bool)
    ensures
        r == queried_has(q@, id@),
{
    let mut k: usize = 0;
    while k < q.len()
        invariant
            0 <= k <= q@.len(),
            forall|m: int| 0 <= m < k ==> #[trigger] q@[m]@ != id@,
        decreases q@.len() - k,
    {
        if ids_equal(&q[k], id) {
            return true;
        }
        k = k + 1;
    }
    false
}

/// Picks the next round of queries of a lookup: up to `alpha` nodes of the
/// shortlist, closest first, that have not been queried yet.
pub fn pick_unqueried(shortlist: &Vec<Node>, queried: &Vec<Id>, alpha: usize) -> (r: Vec<Node>)
    ensures
        r@ == next_to_query(shortlist@, queried@, alpha as nat),
{
    let mut r: Vec<Node> = Vec::new();
    let mut i: usize = 0;
    while i < shortlist.len() && r.len() < alpha
        invariant
            0 <= i <= shortlist@.len(),
            r@ == unqueried_prefix(shortlist@, queried@, i as int),
            r@.len() <= alpha,
        decreases shortlist@.len() - i,
    {
        if !is_queried(queried, &shortlist[i].id) {
            r.push(shortlist[i]);
        }
        i = i + 1;
    }
    proof {
        let s = shortlist@;
        let u = unqueried_prefix(s, queried@, s.len() as int);
        lemma_unqueried_grows(s, queried@, i as int, s.len() as int);
        if i < s.len() {
            assert(r@.len() == alpha);
            assert(r@ =~= u.subrange(0, alpha as int));
        }
    }
    r
}

} // verus!
