//! The routing table: 256 buckets of peers, placed by their distance from the local node.
pub use super::distance::calculate_distance;
use super::distance::{distance, lemma_distance_bounded};
use super::endpoint::{Endpoint, IpAddress};
use super::identity::{Hash256, NodeId};
use vstd::prelude::*;

verus! {

/// The number of buckets of a routing table.
pub const BUCKET_COUNT: usize = 256;

/// The number of peers that a bucket holds unless the table is made with another capacity.
pub const DEFAULT_BUCKET_CAPACITY: usize = 16;

/// Seconds after which a Ping that no Pong has answered counts as failed.
pub const PING_TIMEOUT: u64 = 5;

/// Seconds after a confirmed round trip during which a peer need not be pinged again: 12 hours.
pub const REVALIDATION_INTERVAL: u64 = 43_200;

/// The reachability and identity of a node, as exchanged on the wire and stored in a peer.
#[derive(Clone, Copy, Debug, PartialEq, Eq)]
pub struct Node {
    pub ipAddress: IpAddress,
    pub udpPort: u16,
    pub tcpPort: u16,
    pub nodeID: NodeId,
}

impl Node {
    /// The node with identifier `nodeID` that is reached at `endpoint`.
    pub fn new(endpoint: Endpoint, nodeID: NodeId) -> (node: Node)
        ensures
            node == (Node {
                ipAddress: endpoint.ipAddress,
                udpPort: endpoint.udpPort,
                tcpPort: endpoint.tcpPort,
                nodeID,
            }),
    {
        Node {
            ipAddress: endpoint.ipAddress,
            udpPort: endpoint.udpPort,
            tcpPort: endpoint.tcpPort,
            nodeID,
        }
    }

    /// Where the node is reached.
    pub fn endpoint(&self) -> (endpoint: Endpoint)
        ensures
            endpoint == (Endpoint {
                ipAddress: self.ipAddress,
                udpPort: self.udpPort,
                tcpPort: self.tcpPort,
            }),
    {
        Endpoint { ipAddress: self.ipAddress, udpPort: self.udpPort, tcpPort: self.tcpPort }
    }
}

/// What the liveness fields of a peer say of it.
#[derive(Clone, Copy, Debug, PartialEq, Eq, Structural)]
pub enum Liveness {
    /// No Ping is outstanding and no Pong was ever received.
    Unverified,
    /// A Ping was sent and its Pong is awaited.
    PingSent,
    /// The last Ping was answered.
    Verified,
}

/// A known remote node with its liveness bookkeeping.
#[derive(Clone, Copy, Debug, PartialEq, Eq)]
pub struct Peer {
    pub node: Node,
    /// When the last Ping was sent to the node; 0 if none was.
    pub lastPing: u64,
    /// The hash of the Ping that awaits its Pong, if one does.
    pub lastPingHash: Option<Hash256>,
    /// When the last matching Pong arrived; 0 if none did.
    pub lastPong: u64,
}

impl Peer {
    /// The peer for `node` with zeroed liveness fields.
    pub open spec fn fresh(node: Node) -> Peer {
        Peer { node, lastPing: 0, lastPingHash: None, lastPong: 0 }
    }

    /// The peer after a Ping with hash `hash` was sent to it at `now`.
    pub open spec fn pinged(self, hash: Hash256, now: u64) -> Peer {
        Peer { node: self.node, lastPing: now, lastPingHash: Some(hash), lastPong: self.lastPong }
    }

    /// The peer after the Pong to its outstanding Ping arrived at `now`.
    pub open spec fn ponged(self, now: u64) -> Peer {
        Peer { node: self.node, lastPing: self.lastPing, lastPingHash: None, lastPong: now }
    }

    /// The liveness state that the fields encode.
    pub open spec fn liveness(self) -> Liveness {
        if self.lastPingHash is Some {
            Liveness::PingSent
        } else if self.lastPong > 0 {
            Liveness::Verified
        } else {
            Liveness::Unverified
        }
    }

    /// Whether the peer has failed its liveness check at `now`: a Ping is outstanding and
    /// more than `PING_TIMEOUT` seconds have passed since it was sent.
    pub open spec fn unresponsive(self, now: u64) -> bool {
        self.lastPingHash is Some && self.lastPing + PING_TIMEOUT < now
    }

    /// Whether the peer has completed no round trip within the `REVALIDATION_INTERVAL`
    /// seconds before `now`.
    pub open spec fn stale(self, now: u64) -> bool {
        self.lastPong == 0 || self.lastPong + REVALIDATION_INTERVAL < now
    }

    /// Whether `hash` is the hash of the Ping that the peer has outstanding.
    pub open spec fn awaits(self, hash: Hash256) -> bool {
        self.lastPingHash == Some(hash)
    }

    /// Whether a Ping should go to the peer at `now`: it is stale, and no Ping is
    /// outstanding with it that could still be answered in time.
    pub open spec fn due(self, now: u64) -> bool {
        self.stale(now) && (self.lastPingHash is None || self.unresponsive(now))
    }

    /// The peer for `node`, with zeroed liveness fields.
    pub fn new(node: Node) -> (peer: Peer)
        ensures
            peer == Peer::fresh(node),
    {
        Peer { node, lastPing: 0, lastPingHash: None, lastPong: 0 }
    }

    /// The liveness state of the peer.
    pub fn state(&self) -> (state: Liveness)
        ensures
            state == self.liveness(),
    {
        if self.lastPingHash.is_some() {
            Liveness::PingSent
        } else if self.lastPong > 0 {
            Liveness::Verified
        } else {
            Liveness::Unverified
        }
    }

    /// Whether the peer has failed its liveness check at `now`.
    pub fn is_unresponsive(&self, now: u64) -> (unresponsive: bool)
        ensures
            unresponsive == self.unresponsive(now),
    {
        self.lastPingHash.is_some() && now > self.lastPing && now - self.lastPing > PING_TIMEOUT
    }

    /// Whether the peer has completed no round trip within the 12 hours before `now`.
    pub fn is_stale(&self, now: u64) -> (stale: bool)
        ensures
            stale == self.stale(now),
    {
        self.lastPong == 0 || (now > self.lastPong && now - self.lastPong > REVALIDATION_INTERVAL)
    }

    /// Whether a Ping should go to the peer at `now`.
    pub fn is_due(&self, now: u64) -> (due: bool)
        ensures
            due == self.due(now),
    {
        self.is_stale(now) && (self.lastPingHash.is_none() || self.is_unresponsive(now))
    }

    /// Whether `hash` is the hash of the Ping that the peer has outstanding.
    pub fn is_awaiting(&self, hash: &Hash256) -> (awaits: bool)
        ensures
            awaits == self.awaits(*hash),
    {
        match &self.lastPingHash {
            Some(h) => h.same_as(hash),
            None => false,
        }
    }

    /// Records that a Ping with hash `hash` was sent to the peer at `now`.
    pub fn record_ping(&mut self, hash: Hash256, now: u64)
        ensures
            *final(self) == old(self).pinged(hash, now),
    {
        self.lastPing = now;
        self.lastPingHash = Some(hash);
    }

    /// Records that the Pong to the outstanding Ping arrived at `now`.
    pub fn record_pong(&mut self, now: u64)
        ensures
            *final(self) == old(self).ponged(now),
    {
        self.lastPingHash = None;
        self.lastPong = now;
    }
}

/// Whether some peer of `peers` has the identifier `id`.
pub open spec fn holds(peers: Seq<Peer>, id: NodeId) -> bool {
    exists|j: int| 0 <= j < peers.len() && (#[trigger] peers[j]).node.nodeID == id
}

/// The position in `peers` of a peer with the identifier `id`, where there is one.
pub open spec fn position(peers: Seq<Peer>, id: NodeId) -> int {
    choose|j: int| 0 <= j < peers.len() && (#[trigger] peers[j]).node.nodeID == id
}

/// Whether no two peers of `peers` have the same identifier.
pub open spec fn distinct(peers: Seq<Peer>) -> bool {
    forall|j: int, k: int|
        0 <= j < k < peers.len() ==> (#[trigger] peers[j]).node.nodeID != (
        #[trigger] peers[k]).node.nodeID
}

/// `peers` with the peer at `j` moved to the end, as `moved`.
pub open spec fn move_to_end(peers: Seq<Peer>, j: int, moved: Peer) -> Seq<Peer> {
    peers.remove(j).push(moved)
}

/// The nodes of those peers of `peers` that are due for a Ping at `now`, in their order.
pub open spec fn due_in(peers: Seq<Peer>, now: u64) -> Seq<Node>
    decreases peers.len(),
{
    if peers.len() == 0 {
        Seq::empty()
    } else if peers.last().due(now) {
        due_in(peers.drop_last(), now).push(peers.last().node)
    } else {
        due_in(peers.drop_last(), now)
    }
}

/// The nodes of the first `count` buckets of `buckets` that are due for a Ping at `now`,
/// bucket after bucket.
pub open spec fn due_until(buckets: Seq<Seq<Peer>>, count: int, now: u64) -> Seq<Node>
    decreases count,
{
    if count <= 0 {
        Seq::empty()
    } else {
        due_until(buckets, count - 1, now) + due_in(buckets[count - 1], now)
    }
}

/// One slot of the routing table: peers in the order in which they were last seen, the
/// least recently seen first.
pub struct Bucket {
    pub peers: Vec<Peer>,
}

impl View for Bucket {
    type V = Seq<Peer>;

    open spec fn view(&self) -> Seq<Peer> {
        self.peers@
    }
}

impl Bucket {
    /// An empty bucket.
    pub fn new() -> (bucket: Bucket)
        ensures
            bucket@ == Seq::<Peer>::empty(),
    {
        Bucket { peers: Vec::new() }
    }

    /// The number of peers in the bucket.
    pub fn len(&self) -> (n: usize)
        ensures
            n == self@.len(),
    {
        self.peers.len()
    }

    /// The position of the peer with identifier `id`, if the bucket holds one: the first
    /// such position.
    pub fn find(&self, id: &NodeId) -> (found: Option<usize>)
        ensures
            found is Some <==> holds(self@, *id),
            found matches Some(j) ==> j < self@.len() && self@[j as int].node.nodeID == *id
                && forall|k: int| 0 <= k < j ==> self@[k].node.nodeID != *id,
    {
        let mut j: usize = 0;
        while j < self.peers.len()
            invariant
                j <= self.peers@.len(),
                forall|k: int| 0 <= k < j ==> self.peers@[k].node.nodeID != *id,
            decreases self.peers@.len() - j,
        {
            if self.peers[j].node.nodeID.same_as(id) {
                return Some(j);
            }
            j += 1;
        }
        None
    }
}

/// The index of the bucket for peers at distance `d`: bucket `i` holds the peers at distance
/// `i + 1`, and bucket 0 also those at distance 0, whose identifier differs from the local
/// one while its hash does not.
pub open spec fn bucket_index(d: nat) -> int {
    if d == 0 {
        0
    } else {
        d - 1
    }
}

/// The index of the bucket in which a table with local identifier `local` keeps `id`.
pub open spec fn bucket_of(local: NodeId, id: NodeId) -> int {
    bucket_index(distance(local, id))
}

/// A routing table as a mathematical value.
pub ghost struct Table {
    /// The identifier of the local node.
    pub local: NodeId,
    /// The capacity K of each bucket.
    pub capacity: nat,
    /// The peers of each bucket, least recently seen first.
    pub buckets: Seq<Seq<Peer>>,
}

/// What an insertion does: the table after it, the peer it evicted and whether the node was
/// inserted.
pub ghost struct Insertion {
    pub table: Table,
    pub evicted: Option<Peer>,
    pub inserted: bool,
}

impl Table {
    /// The invariant of a routing table: `BUCKET_COUNT` buckets, each with at most
    /// `capacity` peers, no two of them with the same identifier, none with the local
    /// identifier, and each in the bucket of its distance.
    pub open spec fn wf(self) -> bool {
        &&& self.buckets.len() == BUCKET_COUNT
        &&& forall|i: int|
            0 <= i < self.buckets.len() ==> {
                &&& (#[trigger] self.buckets[i]).len() <= self.capacity
                &&& distinct(self.buckets[i])
                &&& self.placed(i)
            }
    }

    /// Whether each peer of bucket `i` belongs there and is not the local node.
    pub open spec fn placed(self, i: int) -> bool {
        forall|j: int|
            0 <= j < self.buckets[i].len() ==> {
                &&& (#[trigger] self.buckets[i][j]).node.nodeID != self.local
                &&& bucket_of(self.local, self.buckets[i][j].node.nodeID) == i
            }
    }

    /// The peers of the bucket in which `id` is kept.
    pub open spec fn bucket_for(self, id: NodeId) -> Seq<Peer> {
        self.buckets[bucket_of(self.local, id)]
    }

    /// The table with bucket `i` replaced by `peers`.
    pub open spec fn with_bucket(self, i: int, peers: Seq<Peer>) -> Table {
        Table { local: self.local, capacity: self.capacity, buckets: self.buckets.update(i, peers) }
    }

    /// The peer with identifier `id`, if the table holds one.
    pub open spec fn peer(self, id: NodeId) -> Option<Peer> {
        let peers = self.bucket_for(id);
        if holds(peers, id) {
            Some(peers[position(peers, id)])
        } else {
            None
        }
    }

    /// What offering `node` to the table at time `now` does.
    ///
    /// The local node itself is refused. A node that the table holds is moved to the most
    /// recently seen end of its bucket. A new node is appended while its bucket has room.
    /// In a full bucket it replaces the least recently seen peer if that peer is
    /// unresponsive at `now`, and is dropped otherwise.
    pub open spec fn insert(self, node: Node, now: u64) -> Insertion {
        let i = bucket_of(self.local, node.nodeID);
        let peers = self.buckets[i];
        if node.nodeID == self.local {
            Insertion { table: self, evicted: None, inserted: false }
        } else if holds(peers, node.nodeID) {
            let j = position(peers, node.nodeID);
            Insertion {
                table: self.with_bucket(i, move_to_end(peers, j, peers[j])),
                evicted: None,
                inserted: false,
            }
        } else if peers.len() < self.capacity {
            Insertion {
                table: self.with_bucket(i, peers.push(Peer::fresh(node))),
                evicted: None,
                inserted: true,
            }
        } else if peers.len() > 0 && peers[0].unresponsive(now) {
            Insertion {
                table: self.with_bucket(i, peers.remove(0).push(Peer::fresh(node))),
                evicted: Some(peers[0]),
                inserted: true,
            }
        } else {
            Insertion { table: self, evicted: None, inserted: false }
        }
    }

    /// The table after a Ping with hash `hash` was sent at `now` to the peer with
    /// identifier `id`; unchanged if the table holds no such peer.
    pub open spec fn ping_sent(self, id: NodeId, hash: Hash256, now: u64) -> Table {
        let i = bucket_of(self.local, id);
        let peers = self.buckets[i];
        if holds(peers, id) {
            let j = position(peers, id);
            self.with_bucket(i, peers.update(j, peers[j].pinged(hash, now)))
        } else {
            self
        }
    }

    /// The table after the peer with identifier `id` was confirmed live at `now`: its
    /// outstanding Ping is cleared, its last Pong is `now`, and it moves to the most recently
    /// seen end of its bucket. Unchanged if the table holds no such peer.
    pub open spec fn confirmed(self, id: NodeId, now: u64) -> Table {
        let i = bucket_of(self.local, id);
        let peers = self.buckets[i];
        if holds(peers, id) {
            let j = position(peers, id);
            self.with_bucket(i, move_to_end(peers, j, peers[j].ponged(now)))
        } else {
            self
        }
    }

    /// The nodes to ping at `now`: those of the peers that are due, bucket after bucket.
    pub open spec fn due_for_ping(self, now: u64) -> Seq<Node> {
        due_until(self.buckets, self.buckets.len() as int, now)
    }

    /// The table after the offers of `offers`, each a node and the time at which it is
    /// offered, were made one after the other.
    pub open spec fn insert_all(self, offers: Seq<(Node, u64)>) -> Table
        decreases offers.len(),
    {
        if offers.len() == 0 {
            self
        } else {
            self.insert_all(offers.drop_last()).insert(offers.last().0, offers.last().1).table
        }
    }
}

/// In a bucket without duplicates, the position of an identifier is the one place where it
/// stands.
pub proof fn lemma_position(peers: Seq<Peer>, id: NodeId, j: int)
    requires
        distinct(peers),
        0 <= j < peers.len(),
        peers[j].node.nodeID == id,
    ensures
        holds(peers, id),
        position(peers, id) == j,
{
    let p = position(peers, id);
    assert(0 <= p < peers.len() && peers[p].node.nodeID == id);
    if p < j {
        assert(peers[p].node.nodeID != peers[j].node.nodeID);
    } else if j < p {
        assert(peers[j].node.nodeID != peers[p].node.nodeID);
    }
}

proof fn lemma_move_to_end(peers: Seq<Peer>, j: int, moved: Peer)
    requires
        distinct(peers),
        0 <= j < peers.len(),
        moved.node.nodeID == peers[j].node.nodeID,
    ensures
        move_to_end(peers, j, moved).len() == peers.len(),
        distinct(move_to_end(peers, j, moved)),
        forall|k: int|
            0 <= k < peers.len() ==> exists|m: int|
                0 <= m < peers.len() && (#[trigger] move_to_end(peers, j, moved)[k]).node.nodeID
                    == (#[trigger] peers[m]).node.nodeID,
{
    let out = move_to_end(peers, j, moved);
    assert forall|k: int| 0 <= k < peers.len() implies exists|m: int|
        0 <= m < peers.len() && (#[trigger] out[k]).node.nodeID == (
        #[trigger] peers[m]).node.nodeID by {
        let m = if k < j {
            k
        } else if k < peers.len() - 1 {
            k + 1
        } else {
            j
        };
        assert(out[k].node.nodeID == peers[m].node.nodeID);
    }
    assert forall|a: int, b: int| 0 <= a < b < out.len() implies (#[trigger] out[a]).node.nodeID
        != (#[trigger] out[b]).node.nodeID by {
        let ma = if a < j {
            a
        } else {
            a + 1
        };
        assert(out[a].node.nodeID == peers[ma].node.nodeID);
        if b < peers.len() - 1 {
            let mb = if b < j {
                b
            } else {
                b + 1
            };
            assert(out[b].node.nodeID == peers[mb].node.nodeID);
            assert(peers[ma].node.nodeID != peers[mb].node.nodeID);
        } else {
            assert(out[b].node.nodeID == peers[j].node.nodeID);
            if ma < j {
                assert(peers[ma].node.nodeID != peers[j].node.nodeID);
            } else {
                assert(peers[j].node.nodeID != peers[ma].node.nodeID);
            }
        }
    }
}

proof fn lemma_with_bucket_wf(t: Table, i: int, peers: Seq<Peer>)
    requires
        t.wf(),
        0 <= i < BUCKET_COUNT,
        peers.len() <= t.capacity,
        distinct(peers),
        forall|j: int|
            0 <= j < peers.len() ==> (#[trigger] peers[j]).node.nodeID != t.local && bucket_of(
                t.local,
                peers[j].node.nodeID,
            ) == i,
    ensures
        t.with_bucket(i, peers).wf(),
{
    let u = t.with_bucket(i, peers);
    assert forall|k: int| 0 <= k < u.buckets.len() implies {
        &&& (#[trigger] u.buckets[k]).len() <= u.capacity
        &&& distinct(u.buckets[k])
        &&& u.placed(k)
    } by {
        if k != i {
            assert(u.buckets[k] == t.buckets[k]);
            assert(t.placed(k));
        }
    }
}

/// An insertion keeps the table well formed, and leaves its local identifier and its
/// capacity as they are.
pub proof fn lemma_insert_preserves_wf(t: Table, node: Node, now: u64)
    requires
        t.wf(),
    ensures
        t.insert(node, now).table.wf(),
        t.insert(node, now).table.local == t.local,
        t.insert(node, now).table.capacity == t.capacity,
{
    lemma_distance_bounded(t.local, node.nodeID);
    let i = bucket_of(t.local, node.nodeID);
    let peers = t.buckets[i];
    assert(t.placed(i));
    if node.nodeID == t.local {
    } else if holds(peers, node.nodeID) {
        let j = position(peers, node.nodeID);
        let out = move_to_end(peers, j, peers[j]);
        lemma_move_to_end(peers, j, peers[j]);
        assert forall|k: int| 0 <= k < out.len() implies (#[trigger] out[k]).node.nodeID
            != t.local && bucket_of(t.local, out[k].node.nodeID) == i by {
            let m = choose|m: int|
                0 <= m < peers.len() && out[k].node.nodeID == (#[trigger] peers[m]).node.nodeID;
            assert(t.buckets[i][m].node.nodeID != t.local);
        }
        lemma_with_bucket_wf(t, i, out);
    } else if peers.len() < t.capacity {
        let out = peers.push(Peer::fresh(node));
        lemma_push_fresh(peers, node);
        assert forall|k: int| 0 <= k < out.len() implies (#[trigger] out[k]).node.nodeID
            != t.local && bucket_of(t.local, out[k].node.nodeID) == i by {
            if k < peers.len() {
                assert(out[k] == t.buckets[i][k]);
            }
        }
        lemma_with_bucket_wf(t, i, out);
    } else if peers.len() > 0 && peers[0].unresponsive(now) {
        let rest = peers.remove(0);
        assert forall|a: int, b: int| 0 <= a < b < rest.len() implies (
        #[trigger] rest[a]).node.nodeID != (#[trigger] rest[b]).node.nodeID by {
            assert(rest[a] == peers[a + 1]);
            assert(rest[b] == peers[b + 1]);
        }
        assert(!holds(rest, node.nodeID)) by {
            if holds(rest, node.nodeID) {
                let m = position(rest, node.nodeID);
                assert(rest[m] == peers[m + 1]);
            }
        }
        let out = rest.push(Peer::fresh(node));
        lemma_push_fresh(rest, node);
        assert forall|k: int| 0 <= k < out.len() implies (#[trigger] out[k]).node.nodeID
            != t.local && bucket_of(t.local, out[k].node.nodeID) == i by {
            if k < rest.len() {
                assert(out[k] == t.buckets[i][k + 1]);
            }
        }
        lemma_with_bucket_wf(t, i, out);
    } else {
    }
}

/// Any sequence of insertions keeps the table well formed.
pub proof fn lemma_insertions_preserve_wf(t: Table, offers: Seq<(Node, u64)>)
    requires
        t.wf(),
    ensures
        t.insert_all(offers).wf(),
        t.insert_all(offers).local == t.local,
        t.insert_all(offers).capacity == t.capacity,
    decreases offers.len(),
{
    if offers.len() > 0 {
        lemma_insertions_preserve_wf(t, offers.drop_last());
        lemma_insert_preserves_wf(
            t.insert_all(offers.drop_last()),
            offers.last().0,
            offers.last().1,
        );
    }
}

/// After any sequence of insertions, every bucket holds at most `capacity` peers.
pub proof fn lemma_buckets_stay_within_capacity(t: Table, offers: Seq<(Node, u64)>, i: int)
    requires
        t.wf(),
        0 <= i < BUCKET_COUNT,
    ensures
        t.insert_all(offers).buckets[i].len() <= t.capacity,
{
    lemma_insertions_preserve_wf(t, offers);
}

/// After any sequence of insertions, no bucket holds two peers with the same identifier.
pub proof fn lemma_buckets_hold_no_duplicates(
    t: Table,
    offers: Seq<(Node, u64)>,
    i: int,
    j: int,
    k: int,
)
    requires
        t.wf(),
        0 <= i < BUCKET_COUNT,
        0 <= j < k < t.insert_all(offers).buckets[i].len(),
    ensures
        t.insert_all(offers).buckets[i][j].node.nodeID != t.insert_all(
            offers,
        ).buckets[i][k].node.nodeID,
{
    lemma_insertions_preserve_wf(t, offers);
    assert(distinct(t.insert_all(offers).buckets[i]));
}

proof fn lemma_push_fresh(peers: Seq<Peer>, node: Node)
    requires
        distinct(peers),
        !holds(peers, node.nodeID),
    ensures
        distinct(peers.push(Peer::fresh(node))),
{
    let out = peers.push(Peer::fresh(node));
    assert forall|a: int, b: int| 0 <= a < b < out.len() implies (#[trigger] out[a]).node.nodeID
        != (#[trigger] out[b]).node.nodeID by {
        assert(out[a] == peers[a]);
        if b < peers.len() {
            assert(out[b] == peers[b]);
        }
    }
}

/// Offering the local node's own identity changes nothing and inserts nothing.
pub proof fn lemma_self_insertion_rejected(t: Table, node: Node, now: u64)
    requires
        node.nodeID == t.local,
    ensures
        t.insert(node, now) == (Insertion { table: t, evicted: None, inserted: false }),
{
}

/// An insertion evicts only the least recently seen peer of the node's bucket, and only
/// if that peer is unresponsive: no Pong has answered its outstanding Ping within the
/// timeout.
pub proof fn lemma_eviction_requires_unresponsiveness(t: Table, node: Node, now: u64)
    ensures
        t.insert(node, now).evicted matches Some(peer) ==> {
            &&& t.bucket_for(node.nodeID).len() > 0
            &&& peer == t.bucket_for(node.nodeID)[0]
            &&& peer.unresponsive(now)
            &&& peer.lastPingHash is Some
        },
{
}

/// An insertion takes no peer out of the table but the one it evicts, and that one is
/// unresponsive: every peer of every bucket is still in its bucket afterwards, or is the
/// evicted peer and has failed its liveness check.
pub proof fn lemma_only_unresponsive_peers_leave(t: Table, node: Node, now: u64, i: int, j: int)
    requires
        t.wf(),
        0 <= i < BUCKET_COUNT,
        0 <= j < t.buckets[i].len(),
    ensures
        t.insert(node, now).table.buckets[i].contains(t.buckets[i][j]) || (t.insert(
            node,
            now,
        ).evicted == Some(t.buckets[i][j]) && t.buckets[i][j].unresponsive(now)),
{
    lemma_distance_bounded(t.local, node.nodeID);
    let b = bucket_of(t.local, node.nodeID);
    let peers = t.buckets[b];
    let after = t.insert(node, now).table.buckets[i];
    if i != b || node.nodeID == t.local {
        assert(after[j] == t.buckets[i][j]);
    } else if holds(peers, node.nodeID) {
        let at = position(peers, node.nodeID);
        let k = if j < at {
            j
        } else if j > at {
            j - 1
        } else {
            peers.len() - 1
        };
        assert(after[k] == peers[j]);
    } else if peers.len() < t.capacity {
        assert(after[j] == peers[j]);
    } else if peers.len() > 0 && peers[0].unresponsive(now) {
        if j > 0 {
            assert(after[j - 1] == peers[j]);
        }
    } else {
        assert(after[j] == peers[j]);
    }
}

/// A new node offered to a full bucket whose least recently seen peer is not unresponsive
/// is dropped: nothing is evicted, nothing inserted, and the table stays as it is.
pub proof fn lemma_full_bucket_keeps_responsive_peers(t: Table, node: Node, now: u64)
    requires
        node.nodeID != t.local,
        !holds(t.bucket_for(node.nodeID), node.nodeID),
        t.bucket_for(node.nodeID).len() >= t.capacity,
        t.bucket_for(node.nodeID).len() > 0 ==> !t.bucket_for(node.nodeID)[0].unresponsive(now),
    ensures
        t.insert(node, now) == (Insertion { table: t, evicted: None, inserted: false }),
{
}

/// Recording a Ping keeps the table well formed.
pub proof fn lemma_ping_sent_preserves_wf(t: Table, id: NodeId, hash: Hash256, now: u64)
    requires
        t.wf(),
    ensures
        t.ping_sent(id, hash, now).wf(),
{
    lemma_distance_bounded(t.local, id);
    let i = bucket_of(t.local, id);
    let peers = t.buckets[i];
    assert(t.placed(i));
    if holds(peers, id) {
        let j = position(peers, id);
        let pinged = peers.update(j, peers[j].pinged(hash, now));
        assert forall|a: int, b: int| 0 <= a < b < pinged.len() implies (
        #[trigger] pinged[a]).node.nodeID != (#[trigger] pinged[b]).node.nodeID by {
            assert(pinged[a].node.nodeID == peers[a].node.nodeID);
            assert(pinged[b].node.nodeID == peers[b].node.nodeID);
        }
        assert forall|k: int| 0 <= k < pinged.len() implies (#[trigger] pinged[k]).node.nodeID
            != t.local && bucket_of(t.local, pinged[k].node.nodeID) == i by {
            assert(pinged[k].node.nodeID == t.buckets[i][k].node.nodeID);
        }
        lemma_with_bucket_wf(t, i, pinged);
    }
}

/// Confirming a peer keeps the table well formed.
pub proof fn lemma_confirmed_preserves_wf(t: Table, id: NodeId, now: u64)
    requires
        t.wf(),
    ensures
        t.confirmed(id, now).wf(),
{
    lemma_distance_bounded(t.local, id);
    let i = bucket_of(t.local, id);
    let peers = t.buckets[i];
    assert(t.placed(i));
    if holds(peers, id) {
        let j = position(peers, id);
        let moved = peers[j].ponged(now);
        let out = move_to_end(peers, j, moved);
        lemma_move_to_end(peers, j, moved);
        assert forall|k: int| 0 <= k < out.len() implies (#[trigger] out[k]).node.nodeID
            != t.local && bucket_of(t.local, out[k].node.nodeID) == i by {
            let m = choose|m: int|
                0 <= m < peers.len() && out[k].node.nodeID == (#[trigger] peers[m]).node.nodeID;
            assert(t.buckets[i][m].node.nodeID != t.local);
        }
        lemma_with_bucket_wf(t, i, out);
    }
}

/// Recording a Ping with a peer of the table changes that peer as `Peer::pinged` says, and
/// confirming a peer changes it as `Peer::ponged` says: its outstanding Ping is cleared and
/// its last Pong is the time of the confirmation.
pub proof fn lemma_liveness_updates(t: Table, id: NodeId, hash: Hash256, now: u64)
    requires
        t.wf(),
    ensures
        t.ping_sent(id, hash, now).peer(id) == match t.peer(id) {
            Some(peer) => Some(peer.pinged(hash, now)),
            None => None,
        },
        t.confirmed(id, now).peer(id) == match t.peer(id) {
            Some(peer) => Some(peer.ponged(now)),
            None => None,
        },
{
    lemma_distance_bounded(t.local, id);
    lemma_ping_sent_preserves_wf(t, id, hash, now);
    lemma_confirmed_preserves_wf(t, id, now);
    let i = bucket_of(t.local, id);
    let peers = t.buckets[i];
    if holds(peers, id) {
        let j = position(peers, id);
        let pinged = peers.update(j, peers[j].pinged(hash, now));
        assert(t.ping_sent(id, hash, now).buckets[i] == pinged);
        assert(pinged[j].node.nodeID == id);
        lemma_position(pinged, id, j);
        let moved = move_to_end(peers, j, peers[j].ponged(now));
        let last = peers.len() - 1;
        assert(t.confirmed(id, now).buckets[i] == moved);
        assert(moved[last] == peers[j].ponged(now));
        lemma_position(moved, id, last);
    }
}

/// The routing table of the local node.
pub struct Kademlia {
    localNodeID: NodeId,
    buckets: Vec<Bucket>,
    bucketCapacity: usize,
}

impl View for Kademlia {
    type V = Table;

    closed spec fn view(&self) -> Table {
        Table {
            local: self.localNodeID,
            capacity: self.bucketCapacity as nat,
            buckets: Seq::new(self.buckets@.len(), |i: int| self.buckets@[i]@),
        }
    }
}

impl Kademlia {
    /// The invariant of the routing table.
    pub open spec fn wf(&self) -> bool {
        self@.wf()
    }

    /// An empty table for the node `localNodeID`, with buckets of `DEFAULT_BUCKET_CAPACITY`
    /// peers.
    pub fn new(localNodeID: NodeId) -> (table: Kademlia)
        ensures
            table.wf(),
            table@.local == localNodeID,
            table@.capacity == DEFAULT_BUCKET_CAPACITY,
            forall|i: int| 0 <= i < BUCKET_COUNT ==> #[trigger] table@.buckets[i].len() == 0,
    {
        Kademlia::with_capacity(localNodeID, DEFAULT_BUCKET_CAPACITY)
    }

    /// An empty table for the node `localNodeID`, with buckets of `capacity` peers.
    pub fn with_capacity(localNodeID: NodeId, capacity: usize) -> (table: Kademlia)
        ensures
            table.wf(),
            table@.local == localNodeID,
            table@.capacity == capacity,
            forall|i: int| 0 <= i < BUCKET_COUNT ==> #[trigger] table@.buckets[i].len() == 0,
    {
        let mut buckets: Vec<Bucket> = Vec::new();
        while buckets.len() < BUCKET_COUNT
            invariant
                buckets@.len() <= BUCKET_COUNT,
                forall|i: int| 0 <= i < buckets@.len() ==> #[trigger] buckets@[i]@.len() == 0,
            decreases BUCKET_COUNT - buckets@.len(),
        {
            buckets.push(Bucket::new());
        }
        Kademlia { localNodeID, buckets, bucketCapacity: capacity }
    }

    /// The identifier of the local node.
    pub fn local_node_id(&self) -> (id: NodeId)
        ensures
            id == self@.local,
    {
        self.localNodeID
    }

    /// The capacity K of each bucket.
    pub fn bucket_capacity(&self) -> (capacity: usize)
        ensures
            capacity == self@.capacity,
    {
        self.bucketCapacity
    }

    /// The bucket at `index`.
    pub fn bucket(&self, index: usize) -> (bucket: &Bucket)
        requires
            self.wf(),
            index < BUCKET_COUNT,
        ensures
            bucket@ == self@.buckets[index as int],
    {
        &self.buckets[index]
    }

    /// The index of the bucket in which the table keeps the identifier `id`.
    pub fn bucket_index_of(&self, id: &NodeId) -> (index: usize)
        ensures
            index == bucket_of(self@.local, *id),
            index < BUCKET_COUNT,
    {
        let d = calculate_distance(self.localNodeID, *id);
        if d == 0 {
            0
        } else {
            d - 1
        }
    }

    /// The peer with identifier `id`, if the table holds one.
    pub fn find_peer(&self, id: &NodeId) -> (peer: Option<Peer>)
        requires
            self.wf(),
        ensures
            peer == self@.peer(*id),
    {
        let i = self.bucket_index_of(id);
        assert(self@.buckets[i as int] == self.buckets@[i as int]@);
        match self.buckets[i].find(id) {
            Some(j) => {
                proof {
                    lemma_position(self@.buckets[i as int], *id, j as int);
                }
                Some(self.buckets[i].peers[j])
            },
            None => None,
        }
    }

    /// The nodes to ping at `now`: those whose peer has completed no round trip within the
    /// last 12 hours and has no Ping outstanding that could still be answered in time.
    pub fn due_for_ping(&self, now: u64) -> (nodes: Vec<Node>)
        requires
            self.wf(),
        ensures
            nodes@ == self@.due_for_ping(now),
    {
        let mut nodes: Vec<Node> = Vec::new();
        let mut i: usize = 0;
        while i < self.buckets.len()
            invariant
                i <= self.buckets@.len(),
                self@.buckets.len() == self.buckets@.len(),
                nodes@ == due_until(self@.buckets, i as int, now),
            decreases self.buckets@.len() - i,
        {
            let ghost peers = self@.buckets[i as int];
            let ghost done = nodes@;
            assert(peers == self.buckets@[i as int]@);
            let mut j: usize = 0;
            while j < self.buckets[i].peers.len()
                invariant
                    i < self.buckets@.len(),
                    peers == self.buckets@[i as int]@,
                    j <= peers.len(),
                    nodes@ == done + due_in(peers.subrange(0, j as int), now),
                decreases peers.len() - j,
            {
                let peer = self.buckets[i].peers[j];
                proof {
                    let next = peers.subrange(0, j + 1);
                    assert(next.drop_last() =~= peers.subrange(0, j as int));
                    assert(next.last() == peer);
                }
                if peer.is_due(now) {
                    nodes.push(peer.node);
                }
                j += 1;
                assert(nodes@ =~= done + due_in(peers.subrange(0, j as int), now));
            }
            assert(peers.subrange(0, j as int) =~= peers);
            i += 1;
        }
        nodes
    }

    /// Offers `node` to the table at time `now`. Returns the peer that was evicted to make
    /// room, if one was, and whether `node` was inserted.
    pub fn insert_node(&mut self, node: Node, now: u64) -> (result: (Option<Peer>, bool))
        requires
            old(self).wf(),
        ensures
            final(self).wf(),
            final(self)@ == old(self)@.insert(node, now).table,
            result.0 == old(self)@.insert(node, now).evicted,
            result.1 == old(self)@.insert(node, now).inserted,
    {
        proof {
            lemma_insert_preserves_wf(self@, node, now);
        }
        if node.nodeID.same_as(&self.localNodeID) {
            return (None, false);
        }
        let i = self.bucket_index_of(&node.nodeID);
        let ghost before = self@;
        let ghost peers = self@.buckets[i as int];
        assert(peers == self.buckets@[i as int]@);
        match self.buckets[i].find(&node.nodeID) {
            Some(j) => {
                proof {
                    lemma_position(peers, node.nodeID, j as int);
                }
                let peer = self.buckets[i].peers.remove(j);
                self.buckets[i].peers.push(peer);
                assert(self@.buckets =~= before.buckets.update(
                    i as int,
                    move_to_end(peers, j as int, peers[j as int]),
                ));
                (None, false)
            },
            None => {
                if self.buckets[i].peers.len() < self.bucketCapacity {
                    self.buckets[i].peers.push(Peer::new(node));
                    assert(self@.buckets =~= before.buckets.update(
                        i as int,
                        peers.push(Peer::fresh(node)),
                    ));
                    (None, true)
                } else if self.buckets[i].peers.len() > 0 && self.buckets[i].peers[0].is_unresponsive(
                    now,
                ) {
                    let evicted = self.buckets[i].peers.remove(0);
                    self.buckets[i].peers.push(Peer::new(node));
                    assert(self@.buckets =~= before.buckets.update(
                        i as int,
                        peers.remove(0).push(Peer::fresh(node)),
                    ));
                    (Some(evicted), true)
                } else {
                    (None, false)
                }
            },
        }
    }

    /// Records that a Ping with hash `hash` was sent at `now` to the peer with identifier
    /// `id`. Returns whether the table holds such a peer; if not, nothing changes.
    pub fn record_ping(&mut self, id: &NodeId, hash: Hash256, now: u64) -> (known: bool)
        requires
            old(self).wf(),
        ensures
            final(self).wf(),
            known == (old(self)@.peer(*id) is Some),
            final(self)@ == old(self)@.ping_sent(*id, hash, now),
    {
        proof {
            lemma_ping_sent_preserves_wf(self@, *id, hash, now);
        }
        let i = self.bucket_index_of(id);
        let ghost before = self@;
        let ghost peers = self@.buckets[i as int];
        assert(peers == self.buckets@[i as int]@);
        match self.buckets[i].find(id) {
            Some(j) => {
                proof {
                    lemma_position(peers, *id, j as int);
                }
                self.buckets[i].peers[j].record_ping(hash, now);
                assert(self@.buckets =~= before.buckets.update(
                    i as int,
                    peers.update(j as int, peers[j as int].pinged(hash, now)),
                ));
                true
            },
            None => false,
        }
    }

    /// Confirms at `now` that the peer with identifier `id` is live: clears its outstanding
    /// Ping, sets its last Pong and moves it to the most recently seen end of its bucket.
    /// Returns whether the table holds such a peer; if not, nothing changes.
    pub fn confirm(&mut self, id: &NodeId, now: u64) -> (known: bool)
        requires
            old(self).wf(),
        ensures
            final(self).wf(),
            known == (old(self)@.peer(*id) is Some),
            final(self)@ == old(self)@.confirmed(*id, now),
    {
        proof {
            lemma_confirmed_preserves_wf(self@, *id, now);
        }
        let i = self.bucket_index_of(id);
        let ghost before = self@;
        let ghost peers = self@.buckets[i as int];
        assert(peers == self.buckets@[i as int]@);
        match self.buckets[i].find(id) {
            Some(j) => {
                proof {
                    lemma_position(peers, *id, j as int);
                }
                let mut peer = self.buckets[i].peers.remove(j);
                peer.record_pong(now);
                self.buckets[i].peers.push(peer);
                assert(self@.buckets =~= before.buckets.update(
                    i as int,
                    move_to_end(peers, j as int, peers[j as int].ponged(now)),
                ));
                true
            },
            None => false,
        }
    }
}

} // verus!
