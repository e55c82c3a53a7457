use vstd::prelude::*;

use crate::common::id::{Id, be_lt, ids_equal, lemma_be_lt_transitive, lemma_be_lt_irreflexive};

verus! {

/// Number of buckets: one per possible length of the prefix shared with the
/// local identifier, 0 to 160 bits.
pub const NUM_BUCKETS: usize = 161;

/// Consecutive timeouts a node may have and still not count as bad.
pub const RETRY_BUDGET: u32 = 2;

/// Seconds after its last response during which a node counts as good.
pub const FRESH_WINDOW_SECS: u64 = 900;

/// How much a node can be trusted to answer.
#[derive(Clone, Copy, Debug, PartialEq, Eq, Structural)]
pub enum NodeStatus {
    Good,
    Questionable,
    Bad,
}

/// A known DHT node with what this node has seen of it.
#[derive(Clone, Copy, Debug)]
pub struct Node {
    pub id: Id,
    /// IPv4 address, big-endian.
    pub ip: u32,
    pub port: u16,
    /// Time of the last response, in seconds.
    pub last_seen: u64,
    /// Queries that timed out since the last response.
    pub failures: u32,
}

/// The status of `n` at time `now`.
pub open spec fn status_spec(n: Node, now: u64) -> NodeStatus {
    if n.failures > RETRY_BUDGET {
        NodeStatus::Bad
    } else if n.failures == 0 && n.last_seen <= now && now - n.last_seen <= FRESH_WINDOW_SECS {
        NodeStatus::Good
    } else {
        NodeStatus::Questionable
    }
}

/// The record of `n` after a query to it timed out.
pub open spec fn after_timeout(n: Node) -> Node {
    Node { failures: if n.failures < u32::MAX { (n.failures + 1) as u32 } else { n.failures }, ..n }
}

/// The record of `n` after it responded at time `now`.
pub open spec fn after_response(n: Node, now: u64) -> Node {
    Node { failures: 0, last_seen: now, ..n }
}

/// Leading zero bits of a byte.
pub open spec fn lz_byte(x: u8) -> nat {
    if x >= 128 { 0 } else if x >= 64 { 1 } else if x >= 32 { 2 } else if x >= 16 { 3 }
    else if x >= 8 { 4 } else if x >= 4 { 5 } else if x >= 2 { 6 } else if x >= 1 { 7 } else { 8 }
}

/// Leading zero bits of `d` from byte `i` on.
pub open spec fn lz_from(d: Seq<u8>, i: int) -> nat
    decreases d.len() - i,
{
    if i < 0 || i >= d.len() {
        0
    } else if d[i] == 0 {
        8 + lz_from(d, i + 1)
    } else {
        lz_byte(d[i])
    }
}

/// The bucket of `id` in a table around `own`: the number of leading bits they share.
pub open spec fn bucket_index_spec(own: Id, id: Id) -> nat {
    lz_from(own.distance_spec(id), 0)
}

/// Index of the first node at or after `i` with identifier `id`, or -1.
pub open spec fn find_id_from(b: Seq<Node>, id: Seq<u8>, i: int) -> int
    decreases b.len() - i,
{
    if i < 0 || i >= b.len() {
        -1
    } else if b[i].id@ == id {
        i
    } else {
        find_id_from(b, id, i + 1)
    }
}

/// Index of the first node at or after `i` with status `st` at `now`, or -1.
pub open spec fn find_status_from(b: Seq<Node>, st: NodeStatus, now: u64, i: int) -> int
    decreases b.len() - i,
{
    if i < 0 || i >= b.len() {
        -1
    } else if status_spec(b[i], now) == st {
        i
    } else {
        find_status_from(b, st, now, i + 1)
    }
}

/// A bucket of capacity `k` after admitting `n` at `now`: a known node is
/// refreshed; otherwise the node is added if there is room, else it replaces the
/// first bad node, else (if it is good) the first questionable node, else it is
/// turned away.
pub open spec fn bucket_insert(b: Seq<Node>, n: Node, now: u64, k: nat) -> Seq<Node> {
    let i = find_id_from(b, n.id@, 0);
    let j = find_status_from(b, NodeStatus::Bad, now, 0);
    let q = find_status_from(b, NodeStatus::Questionable, now, 0);
    if i >= 0 {
        b.update(i, n)
    } else if b.len() < k {
        b.push(n)
    } else if j >= 0 {
        b.update(j, n)
    } else if status_spec(n, now) == NodeStatus::Good && q >= 0 {
        b.update(q, n)
    } else {
        b
    }
}

/// All nodes of a list of buckets, bucket after bucket.
pub open spec fn flatten(bs: Seq<Seq<Node>>) -> Seq<Node>
    decreases bs.len(),
{
    if bs.len() == 0 {
        Seq::empty()
    } else {
        flatten(bs.drop_last()) + bs.last()
    }
}

/// Whether `r` lists nodes in non-decreasing distance to `target`.
pub open spec fn sorted_by_distance(target: Id, r: Seq<Node>) -> bool {
    forall|k: int|
        0 <= k < r.len() - 1 ==> !be_lt(
            #[trigger] target.distance_spec(r[k + 1].id),
            target.distance_spec(r[k].id),
        )
}

pub proof fn lemma_find_id(b: Seq<Node>, id: Seq<u8>, i: int)
    requires
        0 <= i,
    ensures
        find_id_from(b, id, i) >= 0 ==> i <= find_id_from(b, id, i) < b.len() && b[find_id_from(
            b,
            id,
            i,
        )].id@ == id,
        find_id_from(b, id, i) < 0 ==> forall|m: int| i <= m < b.len() ==> b[m].id@ != id,
    decreases b.len() - i,
{
    if i < b.len() {
        lemma_find_id(b, id, i + 1);
    }
}

pub proof fn lemma_find_status(b: Seq<Node>, st: NodeStatus, now: u64, i: int)
    requires
        0 <= i,
    ensures
        find_status_from(b, st, now, i) >= 0 ==> i <= find_status_from(b, st, now, i) < b.len()
            && status_spec(b[find_status_from(b, st, now, i)], now) == st,
        find_status_from(b, st, now, i) < 0 ==> forall|m: int|
            i <= m < b.len() ==> status_spec(b[m], now) != st,
    decreases b.len() - i,
{
    if i < b.len() {
        lemma_find_status(b, st, now, i + 1);
    }
}

/// A bucket never holds more than its capacity, and admitting a node never
/// evicts a good node: every good node with another identifier stays.
pub proof fn lemma_bucket_insert_keeps_good(b: Seq<Node>, n: Node, now: u64, k: nat)
    requires
        b.len() <= k,
    ensures
        bucket_insert(b, n, now, k).len() <= k,
        forall|m: int|
            0 <= m < b.len() && status_spec(b[m], now) == NodeStatus::Good && b[m].id@ != n.id@
                ==> bucket_insert(b, n, now, k).contains(#[trigger] b[m]),
{
    lemma_find_id(b, n.id@, 0);
    lemma_find_status(b, NodeStatus::Bad, now, 0);
    lemma_find_status(b, NodeStatus::Questionable, now, 0);
    let r = bucket_insert(b, n, now, k);
    assert forall|m: int|
        0 <= m < b.len() && status_spec(b[m], now) == NodeStatus::Good && b[m].id@ != n.id@
            implies r.contains(#[trigger] b[m]) by {
        assert(r[m] == b[m]);
    }
}

/// One timeout leaves a freshly seen node questionable, not bad; timeouts past
/// the retry budget make it bad, and a full bucket then gives its place to a
/// newcomer.
pub proof fn lemma_timeouts_degrade(n: Node, now: u64, b: Seq<Node>, newcomer: Node, k: nat)
    requires
        n.failures == 0,
        n.last_seen <= now,
        now - n.last_seen <= FRESH_WINDOW_SECS,
        b.len() == k,
        b.contains(after_timeout(after_timeout(after_timeout(n)))),
        forall|m: int| 0 <= m < b.len() ==> b[m].id@ != newcomer.id@,
    ensures
        status_spec(n, now) == NodeStatus::Good,
        status_spec(after_timeout(n), now) == NodeStatus::Questionable,
        status_spec(after_timeout(after_timeout(after_timeout(n))), now) == NodeStatus::Bad,
        bucket_insert(b, newcomer, now, k).len() == k,
        bucket_insert(b, newcomer, now, k).contains(newcomer),
{
    let bad = after_timeout(after_timeout(after_timeout(n)));
    lemma_find_id(b, newcomer.id@, 0);
    lemma_find_status(b, NodeStatus::Bad, now, 0);
    let w = choose|m: int| 0 <= m < b.len() && b[m] == bad;
    assert(status_spec(b[w], now) == NodeStatus::Bad);
    let j = find_status_from(b, NodeStatus::Bad, now, 0);
    assert(bucket_insert(b, newcomer, now, k)[j] == newcomer);
}

proof fn lemma_lz_bound(d: Seq<u8>, i: int)
    requires
        0 <= i <= d.len(),
    ensures
        lz_from(d, i) <= 8 * (d.len() - i),
    decreases d.len() - i,
{
    if i < d.len() {
        lemma_lz_bound(d, i + 1);
    }
}

proof fn lemma_flatten_push(bs: Seq<Seq<Node>>, i: int)
    requires
        0 <= i < bs.len(),
    ensures
        flatten(bs.subrange(0, i + 1)) == flatten(bs.subrange(0, i)) + bs[i],
{
    assert(bs.subrange(0, i + 1).drop_last() =~= bs.subrange(0, i));
}

fn lz_byte_exec(x: u8) -> (r: u32)
    ensures
        r == lz_byte(x),
{
    if x >= 128 { 0 } else if x >= 64 { 1 } else if x >= 32 { 2 } else if x >= 16 { 3 }
    else if x >= 8 { 4 } else if x >= 4 { 5 } else if x >= 2 { 6 } else if x >= 1 { 7 } else { 8 }
}

/// The bucket of `id` in a table around `own`.
pub fn bucket_index(own: &Id, id: &Id) -> (r: usize)
    ensures
        r == bucket_index_spec(*own, *id),
        r < NUM_BUCKETS,
{
    let d = own.distance(id);
    proof {
        lemma_lz_bound(d@, 0);
    }
    let mut j: usize = 0;
    while j < 20
        invariant
            0 <= j <= 20,
            d@ == own.distance_spec(*id),
            forall|m: int| 0 <= m < j ==> d@[m] == 0,
            lz_from(d@, 0) == 8 * j + lz_from(d@, j as int),
        decreases 20 - j,
    {
        if d.bytes[j] != 0 {
            let r = 8 * j + lz_byte_exec(d.bytes[j]) as usize;
            return r;
        }
        j = j + 1;
    }
    160
}

impl Node {
    /// The status of this node at time `now`.
    pub fn status(&self, now: u64) -> (r: NodeStatus)
        ensures
            r == status_spec(*self, now),
    {
        if self.failures > RETRY_BUDGET {
            NodeStatus::Bad
        } else if self.failures == 0 && self.last_seen <= now && now - self.last_seen
            <= FRESH_WINDOW_SECS {
            NodeStatus::Good
        } else {
            NodeStatus::Questionable
        }
    }
}

/// The routing table: one bucket of at most `bucket_size` nodes per length of
/// the identifier prefix shared with the local identifier.
pub struct NodeBucketStorage {
    our_id: Id,
    bucket_size: usize,
    buckets: Vec<Vec<Node>>,
}

impl NodeBucketStorage {
    pub closed spec fn own_id(&self) -> Id {
        self.our_id
    }

    pub closed spec fn capacity(&self) -> nat {
        self.bucket_size as nat
    }

    /// The buckets, by shared-prefix length.
    pub closed spec fn buckets_view(&self) -> Seq<Seq<Node>> {
        self.buckets@.map_values(|b: Vec<Node>| b@)
    }

    /// Every node known to the table.
    pub open spec fn nodes(&self) -> Seq<Node> {
        flatten(self.buckets_view())
    }

    /// The table's invariant: one bucket per prefix length, none over capacity,
    /// each node in the bucket of its prefix length.
    pub open spec fn wf(&self) -> bool {
        &&& self.buckets_view().len() == NUM_BUCKETS
        &&& forall|i: int|
            0 <= i < NUM_BUCKETS ==> #[trigger] self.buckets_view()[i].len() <= self.capacity()
        &&& forall|i: int, m: int|
            0 <= i < NUM_BUCKETS && 0 <= m < self.buckets_view()[i].len() ==> bucket_index_spec(
                self.own_id(),
                #[trigger] self.buckets_view()[i][m].id,
            ) == i
    }

    /// An empty table around `our_id` with buckets of `bucket_size` nodes.
    pub fn new(our_id: Id, bucket_size: usize) -> (r: NodeBucketStorage)
        ensures
            r.wf(),
            r.own_id() == our_id,
            r.capacity() == bucket_size,
            forall|i: int| 0 <= i < NUM_BUCKETS ==> #[trigger] r.buckets_view()[i].len() == 0,
    {
        let mut buckets: Vec<Vec<Node>> = Vec::new();
        let mut i: usize = 0;
        while i < NUM_BUCKETS
            invariant
                0 <= i <= NUM_BUCKETS,
                buckets@.len() == i,
                forall|m: int| 0 <= m < i ==> #[trigger] buckets@[m]@.len() == 0,
            decreases NUM_BUCKETS - i,
        {
            buckets.push(Vec::new());
            i = i + 1;
        }
        NodeBucketStorage { our_id, bucket_size, buckets }
    }

    /// Records `node` as seen at `now`, placing it in its bucket by the
    /// admission rules of a bucket.
    pub fn add_or_update(&mut self, node: Node, now: u64)
        requires
            old(self).wf(),
        ensures
            final(self).wf(),
            final(self).own_id() == old(self).own_id(),
            final(self).capacity() == old(self).capacity(),
            final(self).buckets_view() == old(self).buckets_view().update(
                bucket_index_spec(old(self).own_id(), node.id) as int,
                bucket_insert(
                    old(self).buckets_view()[bucket_index_spec(old(self).own_id(), node.id) as int],
                    node,
                    now,
                    old(self).capacity(),
                ),
            ),
    {
        let idx = bucket_index(&self.our_id, &node.id);
        let ghost old_view = self.buckets_view();
        let mut b = self.buckets.remove(idx);
        assert(b@ == old_view[idx as int]);
        let ghost ob = b@;
        proof {
            lemma_find_id(ob, node.id@, 0);
            lemma_find_status(ob, NodeStatus::Bad, now, 0);
            lemma_find_status(ob, NodeStatus::Questionable, now, 0);
            lemma_bucket_insert_keeps_good(ob, node, now, self.bucket_size as nat);
        }
        let pos = find_node(&b, &node.id);
        if pos < b.len() {
            b.set(pos, node);
        } else if b.len() < self.bucket_size {
            b.push(node);
        } else {
            let j = find_with_status(&b, NodeStatus::Bad, now);
            if j < b.len() {
                b.set(j, node);
            } else if node.status(now) == NodeStatus::Good {
                let q = find_with_status(&b, NodeStatus::Questionable, now);
                if q < b.len() {
                    b.set(q, node);
                }
            }
        }
        assert(b@ == bucket_insert(ob, node, now, self.bucket_size as nat));
        self.buckets.insert(idx, b);
        assert(self.buckets_view() =~= old_view.update(idx as int, b@));
        assert forall|i: int, m: int|
            0 <= i < NUM_BUCKETS && 0 <= m < self.buckets_view()[i].len() implies bucket_index_spec(
            self.own_id(),
            #[trigger] self.buckets_view()[i][m].id,
        ) == i by {
            if i == idx {
                let nb = self.buckets_view()[i];
                if nb[m] != node {
                    assert(ob.contains(nb[m]));
                }
            }
        }
    }

    /// Records that a query to the node `id` timed out (`responded` false) or
    /// was answered at `now` (`responded` true). Unknown identifiers change nothing.
    pub fn mark_interaction(&mut self, id: &Id, responded: bool, now: u64)
        requires
            old(self).wf(),
        ensures
            final(self).wf(),
            final(self).own_id() == old(self).own_id(),
            final(self).capacity() == old(self).capacity(),
            ({
                let idx = bucket_index_spec(old(self).own_id(), *id) as int;
                let ob = old(self).buckets_view()[idx];
                let p = find_id_from(ob, id@, 0);
                if p >= 0 {
                    final(self).buckets_view() == old(self).buckets_view().update(
                        idx,
                        ob.update(p, if responded { after_response(ob[p], now) } else { after_timeout(ob[p]) }),
                    )
                } else {
                    final(self).buckets_view() == old(self).buckets_view()
                }
            }),
    {
        let idx = bucket_index(&self.our_id, id);
        let ghost old_view = self.buckets_view();
        let mut b = self.buckets.remove(idx);
        let ghost ob = b@;
        proof {
            lemma_find_id(ob, id@, 0);
        }
        let pos = find_node(&b, id);
        if pos < b.len() {
            let n = b[pos];
            let updated = if responded {
                Node { failures: 0, last_seen: now, ..n }
            } else {
                Node { failures: if n.failures < u32::MAX { n.failures + 1 } else { n.failures }, ..n }
            };
            b.set(pos, updated);
        }
        self.buckets.insert(idx, b);
        assert(self.buckets_view() =~= old_view.update(idx as int, b@));
        proof {
            if pos >= ob.len() {
                assert(ob =~= b@);
                assert(self.buckets_view() =~= old_view);
            }
            assert(self.buckets_view()[idx as int].len() == ob.len());
            assert forall|i: int| 0 <= i < NUM_BUCKETS implies #[trigger] self.buckets_view()[i].len()
                <= self.capacity() by {
                if i != idx {
                    assert(self.buckets_view()[i] == old_view[i]);
                }
                assert(old_view[i].len() <= old(self).capacity());
            }
            assert forall|i: int, m: int|
                0 <= i < NUM_BUCKETS && 0 <= m < self.buckets_view()[i].len() implies bucket_index_spec(
                self.own_id(),
                #[trigger] self.buckets_view()[i][m].id,
            ) == i by {
                if i == idx {
                    assert(self.buckets_view()[i][m].id == ob[m].id);
                    assert(ob[m].id == old_view[i][m].id);
                } else {
                    assert(self.buckets_view()[i] == old_view[i]);
                }
                assert(bucket_index_spec(old(self).own_id(), old_view[i][m].id) == i);
            }
        }
    }

    /// Every known node, bucket after bucket.
    pub fn all_nodes(&self) -> (r: Vec<Node>)
        ensures
            r@ == self.nodes(),
    {
        let mut r: Vec<Node> = Vec::new();
        let mut i: usize = 0;
        while i < self.buckets.len()
            invariant
                0 <= i <= self.buckets@.len(),
                r@ == flatten(self.buckets_view().subrange(0, i as int)),
            decreases self.buckets@.len() - i,
        {
            proof {
                lemma_flatten_push(self.buckets_view(), i as int);
            }
            let b = &self.buckets[i];
            let mut j: usize = 0;
            while j < b.len()
                invariant
                    0 <= i < self.buckets@.len(),
                    b@ == self.buckets_view()[i as int],
                    0 <= j <= b@.len(),
                    r@ == flatten(self.buckets_view().subrange(0, i as int)) + b@.subrange(0, j as int),
                decreases b@.len() - j,
            {
                r.push(b[j]);
                j = j + 1;
                assert(r@ =~= flatten(self.buckets_view().subrange(0, i as int)) + b@.subrange(0, j as int));
            }
            assert(b@.subrange(0, j as int) =~= b@);
            i = i + 1;
        }
        assert(self.buckets_view().subrange(0, i as int) =~= self.buckets_view());
        r
    }

    /// How many nodes the table knows.
    pub fn count(&self) -> (r: usize)
        ensures
            r == self.nodes().len(),
    {
        self.all_nodes().len()
    }

    /// Up to `count` known nodes, closest to `target` first.
    pub fn find_closest(&self, target: &Id, count: usize) -> (r: Vec<Node>)
        ensures
            r@.len() == if count < self.nodes().len() { count as int } else { self.nodes().len() as int },
            sorted_by_distance(*target, r@),
            forall|k: int| 0 <= k < r@.len() ==> self.nodes().contains(#[trigger] r@[k]),
            r@.to_multiset().subset_of(self.nodes().to_multiset()),
            exists|left: Seq<Node>|
                #[trigger] r@.to_multiset().add(left.to_multiset()) == self.nodes().to_multiset()
                    && (r@.len() > 0 ==> forall|k: int|
                    0 <= k < left.len() ==> !be_lt(
                        #[trigger] target.distance_spec(left[k].id),
                        target.distance_spec(r@.last().id),
                    )),
    {
        broadcast use vstd::seq_lib::group_to_multiset_ensures, vstd::multiset::group_multiset_axioms;

        let mut rest = self.all_nodes();
        let ghost all = rest@;
        let mut r: Vec<Node> = Vec::new();
        while r.len() < count && rest.len() > 0
            invariant
                all == self.nodes(),
                r@.len() + rest@.len() == all.len(),
                r@.len() <= count,
                r@.to_multiset().add(rest@.to_multiset()) == all.to_multiset(),
                sorted_by_distance(*target, r@),
                forall|k: int| 0 <= k < r@.len() ==> all.contains(#[trigger] r@[k]),
                forall|k: int| 0 <= k < rest@.len() ==> all.contains(#[trigger] rest@[k]),
                r@.len() > 0 ==> forall|k: int|
                    0 <= k < rest@.len() ==> !be_lt(
                        #[trigger] target.distance_spec(rest@[k].id),
                        target.distance_spec(r@.last().id),
                    ),
            decreases rest@.len(),
        {
            let best = closest_index(target, &rest);
            let ghost rest0 = rest@;
            let n = rest.remove(best);
            proof {
                vstd::seq_lib::to_multiset_remove(rest0, best as int);
                vstd::seq_lib::to_multiset_contains(rest0, n);
                assert(rest0.contains(n));
                assert(rest@ == rest0.remove(best as int));
            }
            let ghost before = r@;
            r.push(n);
            proof {
                vstd::seq_lib::to_multiset_build(before, n);
                assert(r@ == before.push(n));
                assert(r@.to_multiset().add(rest@.to_multiset()) =~= before.to_multiset().add(
                    rest0.to_multiset(),
                ));
            }
            assert(r@.last() == n);
            assert forall|k: int| 0 <= k < r@.len() - 1 implies !be_lt(
                #[trigger] target.distance_spec(r@[k + 1].id),
                target.distance_spec(r@[k].id),
            ) by {
                if k < before.len() - 1 {
                    assert(r@[k] == before[k] && r@[k + 1] == before[k + 1]);
                }
            }
        }
        assert(r@.to_multiset().subset_of(all.to_multiset()));
        assert(r@.to_multiset().add(rest@.to_multiset()) == self.nodes().to_multiset());
        r
    }
}

/// Where known nodes live: what lookups and the engine need of a routing
/// table, so that other strategies can stand in for the bucket table.
pub trait NodeStorage {
    /// The nodes held.
    spec fn stored(&self) -> Seq<Node>;

    /// The storage's own invariant.
    spec fn inv(&self) -> bool;

    /// Records `node` as seen at `now`.
    fn add_or_update(&mut self, node: Node, now: u64)
        requires
            old(self).inv(),
        ensures
            final(self).inv(),
    ;

    /// Records a timeout (`responded` false) or a response at `now` of node `id`.
    fn mark_interaction(&mut self, id: &Id, responded: bool, now: u64)
        requires
            old(self).inv(),
        ensures
            final(self).inv(),
    ;

    /// How many nodes are held.
    fn count(&self) -> (r: usize)
        ensures
            r == self.stored().len(),
    ;

    /// Up to `count` held nodes, closest to `target` first.
    fn find_closest(&self, target: &Id, count: usize) -> (r: Vec<Node>)
        ensures
            r@.len() == if count < self.stored().len() { count as int } else { self.stored().len() as int },
            sorted_by_distance(*target, r@),
            r@.to_multiset().subset_of(self.stored().to_multiset()),
    ;
}

impl NodeStorage for NodeBucketStorage {
    open spec fn stored(&self) -> Seq<Node> {
        self.nodes()
    }

    open spec fn inv(&self) -> bool {
        self.wf()
    }

    fn add_or_update(&mut self, node: Node, now: u64) {
        NodeBucketStorage::add_or_update(self, node, now)
    }

    fn mark_interaction(&mut self, id: &Id, responded: bool, now: u64) {
        NodeBucketStorage::mark_interaction(self, id, responded, now)
    }

    fn count(&self) -> (r: usize) {
        NodeBucketStorage::count(self)
    }

    fn find_closest(&self, target: &Id, count: usize) -> (r: Vec<Node>) {
        NodeBucketStorage::find_closest(self, target, count)
    }
}

/// Position of the node closest to `target` in a non-empty list.
fn closest_index(target: &Id, v: &Vec<Node>) -> (r: usize)
    requires
        v@.len() > 0,
    ensures
        r < v@.len(),
        forall|k: int|
            0 <= k < v@.len() ==> !be_lt(
                #[trigger] target.distance_spec(v@[k].id),
                target.distance_spec(v@[r as int].id),
            ),
{
    let mut best: usize = 0;
    let mut i: usize = 1;
    proof {
        lemma_be_lt_irreflexive(target.distance_spec(v@[0].id), 0);
    }
    while i < v.len()
        invariant
            v@.len() > 0,
            0 <= best < i <= v@.len(),
            forall|k: int|
                0 <= k < i ==> !be_lt(
                    #[trigger] target.distance_spec(v@[k].id),
                    target.distance_spec(v@[best as int].id),
                ),
        decreases v@.len() - i,
    {
        if target.is_closer(&v[i].id, &v[best].id) {
            let ghost ob = best;
            proof {
                assert forall|k: int| 0 <= k < i implies !be_lt(
                    #[trigger] target.distance_spec(v@[k].id),
                    target.distance_spec(v@[i as int].id),
                ) by {
                    if be_lt(target.distance_spec(v@[k].id), target.distance_spec(v@[i as int].id)) {
                        lemma_be_lt_transitive(
                            target.distance_spec(v@[k].id),
                            target.distance_spec(v@[i as int].id),
                            target.distance_spec(v@[ob as int].id),
                            0,
                        );
                    }
                }
                lemma_be_lt_irreflexive(target.distance_spec(v@[i as int].id), 0);
            }
            best = i;
        }
        i = i + 1;
    }
    best
}

/// Position of the node with identifier `id` in `b`, or `b.len()`.
fn find_node(b: &Vec<Node>, id: &Id) -> (r: usize)
    ensures
        r <= b@.len(),
        r < b@.len() <==> find_id_from(b@, id@, 0) >= 0,
        r < b@.len() ==> r == find_id_from(b@, id@, 0),
{
    let mut i: usize = 0;
    while i < b.len()
        invariant
            0 <= i <= b@.len(),
            find_id_from(b@, id@, 0) == find_id_from(b@, id@, i as int),
        decreases b@.len() - i,
    {
        if ids_equal(&b[i].id, id) {
            return i;
        }
        i = i + 1;
    }
    i
}

/// Position of the first node of `b` with status `st` at `now`, or `b.len()`.
fn find_with_status(b: &Vec<Node>, st: NodeStatus, now: u64) -> (r: usize)
    ensures
        r <= b@.len(),
        r < b@.len() <==> find_status_from(b@, st, now, 0) >= 0,
        r < b@.len() ==> r == find_status_from(b@, st, now, 0),
{
    let mut i: usize = 0;
    while i < b.len()
        invariant
            0 <= i <= b@.len(),
            find_status_from(b@, st, now, 0) == find_status_from(b@, st, now, i as int),
        decreases b@.len() - i,
    {
        if b[i].status(now) == st {
            return i;
        }
        i = i + 1;
    }
    i
}

} // verus!
