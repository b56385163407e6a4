//! What the node does with a packet it has received: the validation rules, and the liveness
//! state machine that Pings and Pongs drive.
//!
//! The transport, the clock and the recovery of the sender from the signature are the
//! caller's: a packet arrives here with the identity that its signature recovered, if it
//! recovered one, and with the current time.
use super::identity::{Hash256, NodeId};
use super::kademlia::{
    distinct, holds, lemma_confirmed_preserves_wf, lemma_insert_preserves_wf,
    lemma_liveness_updates, lemma_ping_sent_preserves_wf, lemma_position, position, Bucket,
    Kademlia, Node, Peer, Table,
};
use super::packet::{Packet, PacketData, PongPacketData, PROTOCOL_VERSION};
use vstd::prelude::*;

verus! {

/// Seconds for which a packet of ours stays valid after it was made.
pub const PACKET_LIFETIME: u64 = 20;

/// Why a packet was discarded.
#[derive(Clone, Copy, Debug, PartialEq, Eq, Structural)]
pub enum Rejection {
    /// The type in the header is not that of the payload.
    Malformed,
    /// The signature recovered no identity.
    InvalidSignature,
    /// The expiration of the packet is not in the future.
    Expired,
    /// A Ping carries another version of the protocol than `PROTOCOL_VERSION`.
    VersionMismatch,
    /// A Pong does not answer the Ping that is outstanding with its sender.
    UnsolicitedPong,
}

/// What to do after a packet was accepted.
#[derive(Clone, Copy, Debug, PartialEq, Eq)]
pub enum Reaction {
    /// A Ping was accepted: send `pong` to its sender, and a Ping of our own if `pingBack`
    /// says so. The sender was offered to the routing table, with the result given.
    PingAccepted { pong: PongPacketData, pingBack: bool, evicted: Option<Peer>, inserted: bool },
    /// A Pong was accepted and its sender confirmed live. If it was not in the routing
    /// table, it was offered to it, with the result given.
    PongAccepted { evicted: Option<Peer>, inserted: bool },
}

/// Whether a packet with the expiration `expiration` is discarded at `now`: a packet is
/// processed only while its expiration lies in the future.
pub open spec fn expired(expiration: u64, now: u64) -> bool {
    expiration <= now
}

/// The expiration of a packet made at `now`.
pub open spec fn deadline(now: u64) -> u64 {
    if now + PACKET_LIFETIME > u64::MAX {
        u64::MAX
    } else {
        (now + PACKET_LIFETIME) as u64
    }
}

/// The Pong that answers the Ping with hash `hash` at `now`.
pub open spec fn reply(hash: Hash256, now: u64) -> PongPacketData {
    PongPacketData { pingHash: hash, expiration: deadline(now), enrSequenceNumber: None }
}

/// `peers` without the peer that has the identifier `id`.
pub open spec fn without(peers: Seq<Peer>, id: NodeId) -> Seq<Peer> {
    if holds(peers, id) {
        peers.remove(position(peers, id))
    } else {
        peers
    }
}

/// `peers` without those that are unresponsive at `now`.
pub open spec fn responsive(peers: Seq<Peer>, now: u64) -> Seq<Peer>
    decreases peers.len(),
{
    if peers.len() == 0 {
        peers
    } else if peers.last().unresponsive(now) {
        responsive(peers.drop_last(), now)
    } else {
        responsive(peers.drop_last(), now).push(peers.last())
    }
}

/// The state of the discovery engine as a mathematical value.
pub ghost struct State {
    /// The routing table.
    pub table: Table,
    /// The nodes outside the routing table to which a Ping is outstanding.
    pub pending: Seq<Peer>,
}

/// What the receipt of a packet does: the state after it, and the reaction or rejection.
pub ghost struct Outcome {
    pub state: State,
    pub result: Result<Reaction, Rejection>,
}

impl State {
    /// The invariant of the engine: the routing table is well formed, no two pending
    /// peers have the same identifier, and each has a Ping outstanding.
    pub open spec fn wf(self) -> bool {
        &&& self.table.wf()
        &&& distinct(self.pending)
        &&& forall|j: int|
            0 <= j < self.pending.len() ==> (#[trigger] self.pending[j]).lastPingHash is Some
    }

    /// The hash of the Ping most recently sent to the node `id` and not answered yet: that
    /// of its peer in the routing table, where that one has a Ping outstanding, else that
    /// of its pending peer.
    pub open spec fn outstanding(self, id: NodeId) -> Option<Hash256> {
        let known = self.table.peer(id);
        if known is Some && (known->0).lastPingHash is Some {
            (known->0).lastPingHash
        } else if holds(self.pending, id) {
            self.pending[position(self.pending, id)].lastPingHash
        } else {
            None
        }
    }

    /// Whether a Ping should go to the node `id` at `now`: it has completed no round trip
    /// within the last `REVALIDATION_INTERVAL` seconds.
    pub open spec fn needs_ping(self, id: NodeId, now: u64) -> bool {
        match self.table.peer(id) {
            Some(peer) => peer.stale(now),
            None => true,
        }
    }

    /// The state after a Ping with hash `hash` was sent to `node` at `now`: the Ping is
    /// recorded with the peer of the node in the routing table, or with a pending peer where
    /// the table has none.
    pub open spec fn ping_sent(self, node: Node, hash: Hash256, now: u64) -> State {
        if self.table.peer(node.nodeID) is Some {
            State {
                table: self.table.ping_sent(node.nodeID, hash, now),
                pending: without(self.pending, node.nodeID),
            }
        } else {
            State {
                table: self.table,
                pending: without(self.pending, node.nodeID).push(
                    Peer::fresh(node).pinged(hash, now),
                ),
            }
        }
    }

    /// The state after the pending peers whose Ping has timed out at `now` were dropped.
    pub open spec fn expire(self, now: u64) -> State {
        State { table: self.table, pending: responsive(self.pending, now) }
    }

    /// The rejection of a packet: nothing changes.
    pub open spec fn reject(self, why: Rejection) -> Outcome {
        Outcome { state: self, result: Err(why) }
    }

    /// What an accepted Ping with hash `hash` from `sender` does at `now`.
    pub open spec fn accept_ping(self, hash: Hash256, sender: Node, now: u64) -> Outcome {
        let insertion = self.table.insert(sender, now);
        Outcome {
            state: State { table: insertion.table, pending: self.pending },
            result: Ok(
                Reaction::PingAccepted {
                    pong: reply(hash, now),
                    pingBack: self.needs_ping(sender.nodeID, now),
                    evicted: insertion.evicted,
                    inserted: insertion.inserted,
                },
            ),
        }
    }

    /// What an accepted Pong from the node `id` does at `now`.
    pub open spec fn accept_pong(self, id: NodeId, now: u64) -> Outcome {
        let known = self.table.peer(id);
        if known is Some && (known->0).lastPingHash is Some {
            Outcome {
                state: State { table: self.table.confirmed(id, now), pending: self.pending },
                result: Ok(Reaction::PongAccepted { evicted: None, inserted: false }),
            }
        } else {
            let peer = self.pending[position(self.pending, id)];
            let insertion = self.table.insert(peer.node, now);
            Outcome {
                state: State {
                    table: insertion.table.confirmed(id, now),
                    pending: without(self.pending, id),
                },
                result: Ok(
                    Reaction::PongAccepted {
                        evicted: insertion.evicted,
                        inserted: insertion.inserted,
                    },
                ),
            }
        }
    }

    /// What the receipt of `packet` at `now` does, where `sender` is the node that the
    /// signature of the packet recovered, if it recovered one.
    ///
    /// The rules are applied in this order, and the first that fails rejects the packet:
    /// the type in the header is that of the payload; the signature recovered an identity;
    /// the expiration lies in the future; a Ping carries the protocol version; a Pong
    /// answers the Ping that is outstanding with its sender.
    pub open spec fn receive(self, packet: Packet, sender: Option<Node>, now: u64) -> Outcome {
        if packet.header.packetType != packet.data@.tag() {
            self.reject(Rejection::Malformed)
        } else if sender is None {
            self.reject(Rejection::InvalidSignature)
        } else {
            match packet.data {
                PacketData::Ping(ping) => {
                    if expired(ping.expiration, now) {
                        self.reject(Rejection::Expired)
                    } else if ping.version != PROTOCOL_VERSION {
                        self.reject(Rejection::VersionMismatch)
                    } else {
                        self.accept_ping(packet.header.hash, sender->0, now)
                    }
                },
                PacketData::Pong(pong) => {
                    if expired(pong.expiration, now) {
                        self.reject(Rejection::Expired)
                    } else if self.outstanding((sender->0).nodeID) != Some(pong.pingHash) {
                        self.reject(Rejection::UnsolicitedPong)
                    } else {
                        self.accept_pong((sender->0).nodeID, now)
                    }
                },
            }
        }
    }
}

proof fn lemma_without(peers: Seq<Peer>, id: NodeId)
    requires
        distinct(peers),
    ensures
        distinct(without(peers, id)),
        !holds(without(peers, id), id),
        forall|k: int|
            0 <= k < without(peers, id).len() ==> peers.contains(#[trigger] without(peers, id)[k]),
{
    let out = without(peers, id);
    if holds(peers, id) {
        let j = position(peers, id);
        assert forall|k: int| 0 <= k < out.len() implies peers.contains(#[trigger] out[k]) by {
            let m = if k < j {
                k
            } else {
                k + 1
            };
            assert(out[k] == peers[m]);
        }
        assert forall|a: int, b: int| 0 <= a < b < out.len() implies (
        #[trigger] out[a]).node.nodeID != (#[trigger] out[b]).node.nodeID by {
            let ma = if a < j {
                a
            } else {
                a + 1
            };
            let mb = if b < j {
                b
            } else {
                b + 1
            };
            assert(out[a] == peers[ma]);
            assert(out[b] == peers[mb]);
        }
        if holds(out, id) {
            let k = position(out, id);
            let m = if k < j {
                k
            } else {
                k + 1
            };
            assert(out[k] == peers[m]);
            if m < j {
                assert(peers[m].node.nodeID != peers[j].node.nodeID);
            } else {
                assert(peers[j].node.nodeID != peers[m].node.nodeID);
            }
        }
    } else {
        assert forall|k: int| 0 <= k < out.len() implies peers.contains(#[trigger] out[k]) by {
            assert(out[k] == peers[k]);
        }
    }
}

proof fn lemma_push_pending(peers: Seq<Peer>, peer: Peer)
    requires
        distinct(peers),
        !holds(peers, peer.node.nodeID),
    ensures
        distinct(peers.push(peer)),
        holds(peers.push(peer), peer.node.nodeID),
        position(peers.push(peer), peer.node.nodeID) == peers.len(),
{
    let out = peers.push(peer);
    assert forall|a: int, b: int| 0 <= a < b < out.len() implies (#[trigger] out[a]).node.nodeID
        != (#[trigger] out[b]).node.nodeID by {
        assert(out[a] == peers[a]);
        if b < peers.len() {
            assert(out[b] == peers[b]);
        }
    }
    assert(out[peers.len() as int] == peer);
    lemma_position(out, peer.node.nodeID, peers.len() as int);
}

proof fn lemma_responsive(peers: Seq<Peer>, now: u64)
    requires
        distinct(peers),
    ensures
        distinct(responsive(peers, now)),
        forall|k: int|
            0 <= k < responsive(peers, now).len() ==> peers.contains(
                #[trigger] responsive(peers, now)[k],
            ),
        forall|k: int|
            0 <= k < responsive(peers, now).len() ==> !(#[trigger] responsive(
                peers,
                now,
            )[k]).unresponsive(now),
    decreases peers.len(),
{
    if peers.len() > 0 {
        let init = peers.drop_last();
        let kept = responsive(init, now);
        assert forall|a: int, b: int| 0 <= a < b < init.len() implies (
        #[trigger] init[a]).node.nodeID != (#[trigger] init[b]).node.nodeID by {
            assert(init[a] == peers[a]);
            assert(init[b] == peers[b]);
        }
        lemma_responsive(init, now);
        let out = responsive(peers, now);
        assert forall|k: int| 0 <= k < out.len() implies peers.contains(#[trigger] out[k]) by {
            if k < kept.len() {
                assert(init.contains(kept[k]));
                let m = choose|m: int| 0 <= m < init.len() && (#[trigger] init[m]) == kept[k];
                assert(init[m] == peers[m]);
                assert(out[k] == peers[m]);
            } else {
                assert(out[k] == peers[peers.len() - 1]);
            }
        }
        assert forall|a: int, b: int| 0 <= a < b < out.len() implies (
        #[trigger] out[a]).node.nodeID != (#[trigger] out[b]).node.nodeID by {
            if b < kept.len() {
            } else {
                assert(init.contains(kept[a]));
                let m = choose|m: int| 0 <= m < init.len() && (#[trigger] init[m]) == kept[a];
                assert(init[m] == peers[m]);
                assert(peers[m].node.nodeID != peers[peers.len() - 1].node.nodeID);
            }
        }
    }
}

proof fn lemma_all_outstanding(peers: Seq<Peer>, part: Seq<Peer>)
    requires
        forall|j: int| 0 <= j < peers.len() ==> (#[trigger] peers[j]).lastPingHash is Some,
        forall|k: int| 0 <= k < part.len() ==> peers.contains(#[trigger] part[k]),
    ensures
        forall|k: int| 0 <= k < part.len() ==> (#[trigger] part[k]).lastPingHash is Some,
{
    assert forall|k: int| 0 <= k < part.len() implies (#[trigger] part[k]).lastPingHash is Some by {
        assert(peers.contains(part[k]));
        let m = choose|m: int| 0 <= m < peers.len() && (#[trigger] peers[m]) == part[k];
        assert(peers[m].lastPingHash is Some);
    }
}

/// Recording a Ping keeps the state of the engine well formed.
pub proof fn lemma_ping_sent_keeps_wf(s: State, node: Node, hash: Hash256, now: u64)
    requires
        s.wf(),
    ensures
        s.ping_sent(node, hash, now).wf(),
{
    lemma_ping_sent_preserves_wf(s.table, node.nodeID, hash, now);
    lemma_without(s.pending, node.nodeID);
    let rest = without(s.pending, node.nodeID);
    lemma_all_outstanding(s.pending, rest);
    lemma_push_pending(rest, Peer::fresh(node).pinged(hash, now));
}

/// Dropping the pending peers that timed out keeps the state of the engine well formed.
pub proof fn lemma_expire_keeps_wf(s: State, now: u64)
    requires
        s.wf(),
    ensures
        s.expire(now).wf(),
{
    lemma_responsive(s.pending, now);
    lemma_all_outstanding(s.pending, responsive(s.pending, now));
}

/// Receiving a packet keeps the state of the engine well formed.
pub proof fn lemma_receive_keeps_wf(s: State, packet: Packet, sender: Option<Node>, now: u64)
    requires
        s.wf(),
    ensures
        s.receive(packet, sender, now).state.wf(),
{
    if sender is Some {
        let id = (sender->0).nodeID;
        lemma_insert_preserves_wf(s.table, sender->0, now);
        lemma_confirmed_preserves_wf(s.table, id, now);
        lemma_without(s.pending, id);
        lemma_all_outstanding(s.pending, without(s.pending, id));
        if holds(s.pending, id) {
            let peer = s.pending[position(s.pending, id)];
            lemma_insert_preserves_wf(s.table, peer.node, now);
            lemma_confirmed_preserves_wf(s.table.insert(peer.node, now).table, id, now);
        }
    }
}

/// After a Ping was sent to a node, its hash is the one outstanding with that node.
pub proof fn lemma_ping_sent_is_outstanding(s: State, node: Node, hash: Hash256, now: u64)
    requires
        s.wf(),
    ensures
        s.ping_sent(node, hash, now).outstanding(node.nodeID) == Some(hash),
{
    let id = node.nodeID;
    lemma_liveness_updates(s.table, id, hash, now);
    lemma_without(s.pending, id);
    if s.table.peer(id) is None {
        lemma_push_pending(without(s.pending, id), Peer::fresh(node).pinged(hash, now));
    }
}

/// A Pong is accepted exactly when its type is in order, its signature recovered its
/// sender, its expiration lies in the future, and its hash is that of the Ping outstanding
/// with that sender. A Pong with another hash, or from a sender with no Ping outstanding,
/// is rejected, and a rejected packet changes nothing.
pub proof fn lemma_pong_accepted_iff_solicited(
    s: State,
    packet: Packet,
    pong: PongPacketData,
    sender: Option<Node>,
    now: u64,
)
    requires
        packet.data == PacketData::Pong(pong),
    ensures
        s.receive(packet, sender, now).result is Ok <==> {
            &&& packet.header.packetType == packet.data@.tag()
            &&& sender is Some
            &&& pong.expiration > now
            &&& s.outstanding((sender->0).nodeID) == Some(pong.pingHash)
        },
        s.receive(packet, sender, now).result is Err ==> s.receive(packet, sender, now).state == s,
{
}

/// An accepted Pong verifies its sender: if the routing table holds the sender afterwards,
/// its peer there has no Ping outstanding and `now` as the time of its last Pong.
pub proof fn lemma_accepted_pong_verifies_sender(
    s: State,
    packet: Packet,
    pong: PongPacketData,
    sender: Node,
    now: u64,
)
    requires
        s.wf(),
        packet.data == PacketData::Pong(pong),
        s.receive(packet, Some(sender), now).result is Ok,
    ensures
        s.receive(packet, Some(sender), now).state.table.peer(sender.nodeID) matches Some(peer)
            ==> peer.lastPingHash is None && peer.lastPong == now,
{
    let id = sender.nodeID;
    let hash = pong.pingHash;
    let known = s.table.peer(id);
    if known is Some && (known->0).lastPingHash is Some {
        lemma_liveness_updates(s.table, id, hash, now);
    } else {
        let peer = s.pending[position(s.pending, id)];
        lemma_insert_preserves_wf(s.table, peer.node, now);
        lemma_liveness_updates(s.table.insert(peer.node, now).table, id, hash, now);
    }
}

/// A packet is processed only while its expiration lies in the future: one that expires
/// at `now` or before is rejected, and a rejected packet changes nothing.
pub proof fn lemma_expired_packet_rejected(s: State, packet: Packet, sender: Option<Node>, now: u64)
    requires
        match packet.data {
            PacketData::Ping(ping) => ping.expiration <= now,
            PacketData::Pong(pong) => pong.expiration <= now,
        },
    ensures
        s.receive(packet, sender, now).result is Err,
        s.receive(packet, sender, now).state == s,
        packet.header.packetType == packet.data@.tag() && sender is Some ==> s.receive(
            packet,
            sender,
            now,
        ).result == Err::<Reaction, Rejection>(Rejection::Expired),
{
}

/// Whether a packet with the expiration `expiration` is discarded at `now`.
pub fn is_expired(expiration: u64, now: u64) -> (discard: bool)
    ensures
        discard == expired(expiration, now),
        discard == !(expiration > now),
{
    expiration <= now
}

/// The expiration to give a packet made at `now`.
pub fn expiration_at(now: u64) -> (expiration: u64)
    ensures
        expiration == deadline(now),
{
    if now > u64::MAX - PACKET_LIFETIME {
        u64::MAX
    } else {
        now + PACKET_LIFETIME
    }
}

/// The discovery engine: the routing table and the Pings that are outstanding with nodes
/// outside it.
pub struct Discovery {
    table: Kademlia,
    pending: Bucket,
}

impl View for Discovery {
    type V = State;

    closed spec fn view(&self) -> State {
        State { table: self.table@, pending: self.pending@ }
    }
}

impl Discovery {
    /// The invariant of the engine.
    pub open spec fn wf(&self) -> bool {
        self@.wf()
    }

    /// The engine around the routing table `table`, with no Ping outstanding outside it.
    pub fn new(table: Kademlia) -> (engine: Discovery)
        requires
            table.wf(),
        ensures
            engine.wf(),
            engine@.table == table@,
            engine@.pending == Seq::<Peer>::empty(),
    {
        Discovery { table, pending: Bucket::new() }
    }

    /// The routing table.
    pub fn table(&self) -> (table: &Kademlia)
        ensures
            table@ == self@.table,
    {
        &self.table
    }

    /// The number of nodes outside the routing table with which a Ping is outstanding.
    pub fn pending_count(&self) -> (count: usize)
        ensures
            count == self@.pending.len(),
    {
        self.pending.len()
    }

    /// The hash of the Ping that is outstanding with the node `id`, if one is.
    pub fn outstanding_ping(&self, id: &NodeId) -> (hash: Option<Hash256>)
        requires
            self.wf(),
        ensures
            hash == self@.outstanding(*id),
    {
        match self.table.find_peer(id) {
            Some(Peer { lastPingHash: Some(hash), .. }) => Some(hash),
            _ => match self.pending.find(id) {
                Some(j) => {
                    proof {
                        lemma_position(self.pending@, *id, j as int);
                    }
                    self.pending.peers[j].lastPingHash
                },
                None => None,
            },
        }
    }

    /// Whether a Ping should go to the node `id` at `now`.
    pub fn needs_ping(&self, id: &NodeId, now: u64) -> (needed: bool)
        requires
            self.wf(),
        ensures
            needed == self@.needs_ping(*id, now),
    {
        match self.table.find_peer(id) {
            Some(peer) => peer.is_stale(now),
            None => true,
        }
    }

    /// Records that a Ping with hash `hash` was sent to `node` at `now`.
    pub fn ping_sent(&mut self, node: Node, hash: Hash256, now: u64)
        requires
            old(self).wf(),
        ensures
            final(self).wf(),
            final(self)@ == old(self)@.ping_sent(node, hash, now),
            final(self)@.outstanding(node.nodeID) == Some(hash),
    {
        proof {
            lemma_ping_sent_keeps_wf(self@, node, hash, now);
            lemma_ping_sent_is_outstanding(self@, node, hash, now);
        }
        let known = self.table.record_ping(&node.nodeID, hash, now);
        self.forget(&node.nodeID);
        if !known {
            let mut peer = Peer::new(node);
            peer.record_ping(hash, now);
            self.pending.peers.push(peer);
        }
    }

    /// Drops the pending peer with the identifier `id`, if there is one.
    fn forget(&mut self, id: &NodeId)
        requires
            distinct(old(self).pending@),
        ensures
            final(self).table == old(self).table,
            final(self).pending@ == without(old(self).pending@, *id),
    {
        match self.pending.find(id) {
            Some(j) => {
                proof {
                    lemma_position(self.pending@, *id, j as int);
                }
                self.pending.peers.remove(j);
            },
            None => {},
        }
    }

    /// Drops the pending peers whose Ping has timed out at `now`.
    pub fn expire(&mut self, now: u64)
        requires
            old(self).wf(),
        ensures
            final(self).wf(),
            final(self)@ == old(self)@.expire(now),
    {
        proof {
            lemma_expire_keeps_wf(self@, now);
        }
        let mut kept: Vec<Peer> = Vec::new();
        let mut i: usize = 0;
        while i < self.pending.peers.len()
            invariant
                i <= self.pending@.len(),
                self.pending@ == old(self).pending@,
                self.table == old(self).table,
                kept@ == responsive(self.pending@.subrange(0, i as int), now),
            decreases self.pending@.len() - i,
        {
            let peer = self.pending.peers[i];
            proof {
                let next = self.pending@.subrange(0, i + 1);
                assert(next.drop_last() =~= self.pending@.subrange(0, i as int));
                assert(next.last() == peer);
            }
            if !peer.is_unresponsive(now) {
                kept.push(peer);
            }
            i += 1;
        }
        assert(self.pending@.subrange(0, i as int) =~= self.pending@);
        self.pending = Bucket { peers: kept };
    }

    /// Processes the packet `packet`, received at `now`. `sender` is the node that the
    /// signature of the packet recovered, `None` if it recovered none.
    ///
    /// Returns what to do next if the packet was accepted, and why it was discarded if it
    /// was not; a discarded packet changes nothing.
    pub fn handle_packet(&mut self, packet: &Packet, sender: Option<Node>, now: u64) -> (result:
        Result<Reaction, Rejection>)
        requires
            old(self).wf(),
        ensures
            final(self).wf(),
            final(self)@ == old(self)@.receive(*packet, sender, now).state,
            result == old(self)@.receive(*packet, sender, now).result,
            result is Err ==> final(self)@ == old(self)@,
    {
        proof {
            lemma_receive_keeps_wf(self@, *packet, sender, now);
        }
        if packet.header.packetType != packet.data.packet_type() {
            return Err(Rejection::Malformed);
        }
        let sender = match sender {
            Some(node) => node,
            None => {
                return Err(Rejection::InvalidSignature);
            },
        };
        match &packet.data {
            PacketData::Ping(ping) => {
                if is_expired(ping.expiration, now) {
                    return Err(Rejection::Expired);
                }
                if ping.version != PROTOCOL_VERSION {
                    return Err(Rejection::VersionMismatch);
                }
                let pingBack = self.needs_ping(&sender.nodeID, now);
                let (evicted, inserted) = self.table.insert_node(sender, now);
                let pong = PongPacketData {
                    pingHash: packet.header.hash,
                    expiration: expiration_at(now),
                    enrSequenceNumber: None,
                };
                Ok(Reaction::PingAccepted { pong, pingBack, evicted, inserted })
            },
            PacketData::Pong(pong) => {
                if is_expired(pong.expiration, now) {
                    return Err(Rejection::Expired);
                }
                let id = sender.nodeID;
                match self.table.find_peer(&id) {
                    Some(Peer { lastPingHash: Some(hash), .. }) => {
                        if !hash.same_as(&pong.pingHash) {
                            return Err(Rejection::UnsolicitedPong);
                        }
                        self.table.confirm(&id, now);
                        Ok(Reaction::PongAccepted { evicted: None, inserted: false })
                    },
                    _ => match self.pending.find(&id) {
                        Some(j) => {
                            proof {
                                lemma_position(self.pending@, id, j as int);
                            }
                            let peer = self.pending.peers[j];
                            if !peer.is_awaiting(&pong.pingHash) {
                                return Err(Rejection::UnsolicitedPong);
                            }
                            self.pending.peers.remove(j);
                            let (evicted, inserted) = self.table.insert_node(peer.node, now);
                            self.table.confirm(&id, now);
                            Ok(Reaction::PongAccepted { evicted, inserted })
                        },
                        None => Err(Rejection::UnsolicitedPong),
                    },
                }
            },
        }
    }
}

} // verus!
