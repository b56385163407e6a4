use peer_discovery::networking::discovery::endpoint::{Endpoint, IpAddress};
use peer_discovery::networking::discovery::identity::{Hash256, NodeId};
use peer_discovery::networking::discovery::kademlia::{
    Kademlia, Liveness, Node, Peer, BUCKET_COUNT, DEFAULT_BUCKET_CAPACITY, PING_TIMEOUT,
    REVALIDATION_INTERVAL,
};

// With the local identifier made of zero bytes, the identifiers made of one of these bytes
// are at distance 256 and belong in bucket 255.
const FAR: [u8; 18] = [1, 3, 5, 10, 11, 14, 15, 16, 18, 19, 20, 21, 24, 25, 28, 29, 38, 42];

fn id(v: u8) -> NodeId {
    NodeId::new([v; 64])
}

fn node(v: u8) -> Node {
    Node { ipAddress: IpAddress::V4([10, 0, 0, v]), udpPort: 30303, tcpPort: 30303, nodeID: id(v) }
}

fn hash(v: u8) -> Hash256 {
    Hash256::new([v; 32])
}

fn ids_of(table: &Kademlia, bucket: usize) -> Vec<u8> {
    table.bucket(bucket).peers.iter().map(|p| p.node.nodeID.bytes[0]).collect()
}

fn total(table: &Kademlia) -> usize {
    (0..BUCKET_COUNT).map(|i| table.bucket(i).len()).sum()
}

fn full_table() -> Kademlia {
    let mut table = Kademlia::new(id(0));
    for v in &FAR[..16] {
        assert_eq!(table.insert_node(node(*v), 100), (None, true));
    }
    table
}

#[test]
fn new_table_has_256_empty_buckets() {
    let table = Kademlia::new(id(0));
    assert_eq!(BUCKET_COUNT, 256);
    assert_eq!(DEFAULT_BUCKET_CAPACITY, 16);
    assert_eq!(table.bucket_capacity(), 16);
    assert_eq!(table.local_node_id(), id(0));
    for i in 0..BUCKET_COUNT {
        assert_eq!(table.bucket(i).len(), 0);
    }
    assert_eq!(Kademlia::with_capacity(id(9), 3).bucket_capacity(), 3);
}

#[test]
fn new_node_is_appended_with_zeroed_liveness() {
    let mut table = Kademlia::new(id(0));
    assert_eq!(table.insert_node(node(1), 77), (None, true));
    assert_eq!(total(&table), 1);
    let peer = table.bucket(255).peers[0];
    assert_eq!(peer, Peer { node: node(1), lastPing: 0, lastPingHash: None, lastPong: 0 });
    assert_eq!(peer.state(), Liveness::Unverified);
    assert_eq!(table.find_peer(&id(1)), Some(peer));
    assert_eq!(table.find_peer(&id(3)), None);
}

#[test]
fn node_goes_to_the_bucket_of_its_distance() {
    let mut table = Kademlia::new(id(0));
    assert_eq!(table.bucket_index_of(&id(1)), 255);
    assert_eq!(table.bucket_index_of(&id(2)), 254);
    assert_eq!(table.bucket_index_of(&id(0xff)), 252);
    assert_eq!(table.bucket_index_of(&id(37)), 250);
    assert_eq!(table.bucket_index_of(&id(0)), 0);
    for v in [1u8, 2, 0xff, 37] {
        assert_eq!(table.insert_node(node(v), 0), (None, true));
    }
    assert_eq!(ids_of(&table, 255), vec![1]);
    assert_eq!(ids_of(&table, 254), vec![2]);
    assert_eq!(ids_of(&table, 252), vec![0xff]);
    assert_eq!(ids_of(&table, 250), vec![37]);
    assert_eq!(total(&table), 4);
}

#[test]
fn known_node_moves_to_the_end_of_its_bucket() {
    let mut table = Kademlia::new(id(0));
    for v in [1u8, 3, 5] {
        table.insert_node(node(v), 0);
    }
    assert_eq!(ids_of(&table, 255), vec![1, 3, 5]);
    assert_eq!(table.insert_node(node(1), 10), (None, false));
    assert_eq!(ids_of(&table, 255), vec![3, 5, 1]);
    assert_eq!(table.insert_node(node(1), 11), (None, false));
    assert_eq!(ids_of(&table, 255), vec![3, 5, 1]);
    assert_eq!(table.insert_node(node(5), 12), (None, false));
    assert_eq!(ids_of(&table, 255), vec![3, 1, 5]);
}

#[test]
fn known_node_keeps_its_record_when_offered_again() {
    let mut table = Kademlia::new(id(0));
    table.insert_node(node(1), 0);
    table.insert_node(node(3), 0);
    assert!(table.record_ping(&id(1), hash(9), 50));
    let moved = Node { ipAddress: IpAddress::V4([192, 168, 0, 1]), udpPort: 1, tcpPort: 2, nodeID: id(1) };
    assert_eq!(table.insert_node(moved, 60), (None, false));
    assert_eq!(
        table.bucket(255).peers[1],
        Peer { node: node(1), lastPing: 50, lastPingHash: Some(hash(9)), lastPong: 0 }
    );
}

#[test]
fn bucket_holds_no_identifier_twice() {
    let mut table = Kademlia::new(id(0));
    for _ in 0..5 {
        for v in [1u8, 3, 5, 2] {
            table.insert_node(node(v), 0);
        }
    }
    assert_eq!(total(&table), 4);
    let mut far = ids_of(&table, 255);
    far.sort();
    assert_eq!(far, vec![1, 3, 5]);
    assert_eq!(ids_of(&table, 254), vec![2]);
}

#[test]
fn self_insertion_is_rejected() {
    let mut table = Kademlia::new(id(0));
    assert_eq!(table.insert_node(node(0), 5), (None, false));
    assert_eq!(total(&table), 0);
    table.insert_node(node(1), 5);
    let elsewhere = Node { ipAddress: IpAddress::V6([7; 16]), udpPort: 9, tcpPort: 9, nodeID: id(0) };
    assert_eq!(table.insert_node(elsewhere, 6), (None, false));
    assert_eq!(total(&table), 1);
    assert_eq!(ids_of(&table, 255), vec![1]);
    assert_eq!(table.find_peer(&id(0)), None);
}

#[test]
fn bucket_never_exceeds_its_capacity() {
    let mut table = Kademlia::new(id(0));
    for (n, v) in FAR.iter().enumerate() {
        let (evicted, inserted) = table.insert_node(node(*v), 100 + n as u64);
        assert_eq!(evicted, None);
        assert_eq!(inserted, n < 16);
        assert!(table.bucket(255).len() <= 16);
    }
    assert_eq!(ids_of(&table, 255), FAR[..16].to_vec());
    let mut small = Kademlia::with_capacity(id(0), 2);
    for v in FAR {
        small.insert_node(node(v), 0);
        assert!(small.bucket(255).len() <= 2);
    }
    assert_eq!(ids_of(&small, 255), vec![1, 3]);
}

#[test]
fn full_bucket_of_verified_peers_drops_the_newcomer() {
    let mut table = full_table();
    for v in &FAR[..16] {
        assert!(table.record_ping(&id(*v), hash(*v), 1000));
        assert!(table.confirm(&id(*v), 1001));
    }
    let before = ids_of(&table, 255);
    assert_eq!(table.insert_node(node(FAR[16]), 1002), (None, false));
    assert_eq!(table.bucket(255).len(), 16);
    assert_eq!(ids_of(&table, 255), before);
    assert_eq!(table.insert_node(node(FAR[16]), u64::MAX), (None, false));
    assert_eq!(ids_of(&table, 255), before);
    assert_eq!(table.find_peer(&id(FAR[16])), None);
}

#[test]
fn full_bucket_of_unverified_peers_drops_the_newcomer() {
    let mut table = full_table();
    assert_eq!(table.insert_node(node(FAR[16]), 1_000_000), (None, false));
    assert_eq!(ids_of(&table, 255), FAR[..16].to_vec());
}

#[test]
fn full_bucket_evicts_its_unresponsive_head() {
    let mut table = full_table();
    assert!(table.record_ping(&id(1), hash(0xee), 1000));
    let head = Peer { node: node(1), lastPing: 1000, lastPingHash: Some(hash(0xee)), lastPong: 0 };
    assert_eq!(table.bucket(255).peers[0], head);
    assert_eq!(table.insert_node(node(FAR[16]), 1000 + PING_TIMEOUT + 1), (Some(head), true));
    assert_eq!(table.bucket(255).len(), 16);
    let expected = FAR[1..17].to_vec();
    assert_eq!(ids_of(&table, 255), expected);
    assert_eq!(table.bucket(255).peers[15], Peer::new(node(FAR[16])));
    assert_eq!(table.find_peer(&id(1)), None);
    // The next head has no Ping outstanding: the next newcomer is dropped.
    assert_eq!(table.insert_node(node(FAR[17]), 5000), (None, false));
    assert_eq!(ids_of(&table, 255), expected);
}

#[test]
fn head_is_kept_until_the_timeout_has_passed() {
    let mut table = full_table();
    table.record_ping(&id(1), hash(0xee), 1000);
    assert_eq!(PING_TIMEOUT, 5);
    assert_eq!(table.insert_node(node(FAR[16]), 999), (None, false));
    assert_eq!(table.insert_node(node(FAR[16]), 1000), (None, false));
    assert_eq!(table.insert_node(node(FAR[16]), 1005), (None, false));
    assert_eq!(ids_of(&table, 255), FAR[..16].to_vec());
    assert_eq!(table.insert_node(node(FAR[16]), 1006).1, true);
}

#[test]
fn only_the_head_of_a_full_bucket_can_be_evicted() {
    let mut table = full_table();
    table.record_ping(&id(3), hash(1), 1000);
    table.record_ping(&id(29), hash(2), 1000);
    assert_eq!(table.insert_node(node(FAR[16]), 2000), (None, false));
    assert_eq!(ids_of(&table, 255), FAR[..16].to_vec());
}

#[test]
fn head_that_answered_is_not_evicted() {
    let mut table = full_table();
    table.record_ping(&id(1), hash(0xee), 1000);
    assert!(table.confirm(&id(1), 1002));
    assert_eq!(table.insert_node(node(FAR[16]), 9000), (None, false));
    let mut expected = FAR[1..16].to_vec();
    expected.push(1);
    assert_eq!(ids_of(&table, 255), expected);
}

#[test]
fn table_without_capacity_stores_nothing() {
    let mut table = Kademlia::with_capacity(id(0), 0);
    assert_eq!(table.insert_node(node(1), 0), (None, false));
    assert_eq!(table.insert_node(node(2), u64::MAX), (None, false));
    assert_eq!(total(&table), 0);
}

#[test]
fn recording_a_ping_marks_the_peer() {
    let mut table = Kademlia::new(id(0));
    table.insert_node(node(1), 0);
    table.insert_node(node(3), 0);
    assert!(!table.record_ping(&id(5), hash(1), 10));
    assert!(!table.record_ping(&id(0), hash(1), 10));
    assert!(table.record_ping(&id(1), hash(1), 10));
    assert!(table.record_ping(&id(1), hash(2), 20));
    assert_eq!(ids_of(&table, 255), vec![1, 3]);
    let peer = table.find_peer(&id(1)).unwrap();
    assert_eq!(peer, Peer { node: node(1), lastPing: 20, lastPingHash: Some(hash(2)), lastPong: 0 });
    assert_eq!(peer.state(), Liveness::PingSent);
    assert_eq!(table.find_peer(&id(3)), Some(Peer::new(node(3))));
}

#[test]
fn confirming_a_peer_verifies_it_and_moves_it_to_the_end() {
    let mut table = Kademlia::new(id(0));
    for v in [1u8, 3, 5] {
        table.insert_node(node(v), 0);
    }
    table.record_ping(&id(3), hash(4), 30);
    assert!(!table.confirm(&id(10), 40));
    assert!(table.confirm(&id(3), 40));
    assert_eq!(ids_of(&table, 255), vec![1, 5, 3]);
    let peer = table.find_peer(&id(3)).unwrap();
    assert_eq!(peer, Peer { node: node(3), lastPing: 30, lastPingHash: None, lastPong: 40 });
    assert_eq!(peer.state(), Liveness::Verified);
}

#[test]
fn peer_liveness_follows_pings_and_pongs() {
    let mut peer = Peer::new(node(1));
    assert_eq!(peer.state(), Liveness::Unverified);
    assert!(!peer.is_awaiting(&hash(1)));
    peer.record_ping(hash(1), 100);
    assert_eq!(peer.state(), Liveness::PingSent);
    assert!(peer.is_awaiting(&hash(1)));
    assert!(!peer.is_awaiting(&hash(2)));
    peer.record_pong(103);
    assert_eq!(peer.state(), Liveness::Verified);
    assert!(!peer.is_awaiting(&hash(1)));
    assert_eq!(peer, Peer { node: node(1), lastPing: 100, lastPingHash: None, lastPong: 103 });
}

#[test]
fn peer_is_unresponsive_after_the_timeout() {
    let mut peer = Peer::new(node(1));
    assert!(!peer.is_unresponsive(u64::MAX));
    peer.record_ping(hash(1), 100);
    assert!(!peer.is_unresponsive(0));
    assert!(!peer.is_unresponsive(100));
    assert!(!peer.is_unresponsive(105));
    assert!(peer.is_unresponsive(106));
    assert!(peer.is_unresponsive(u64::MAX));
    peer.record_ping(hash(1), u64::MAX);
    assert!(!peer.is_unresponsive(u64::MAX));
    peer.record_pong(200);
    assert!(!peer.is_unresponsive(u64::MAX));
}

#[test]
fn peer_is_stale_after_twelve_hours() {
    assert_eq!(REVALIDATION_INTERVAL, 12 * 60 * 60);
    let mut peer = Peer::new(node(1));
    assert!(peer.is_stale(0));
    peer.record_ping(hash(1), 100);
    assert!(peer.is_stale(101));
    peer.record_pong(1000);
    assert!(!peer.is_stale(0));
    assert!(!peer.is_stale(1000));
    assert!(!peer.is_stale(1000 + 43_200));
    assert!(peer.is_stale(1000 + 43_201));
}

#[test]
fn node_and_endpoint_convert() {
    let endpoint = Endpoint { ipAddress: IpAddress::V4([1, 2, 3, 4]), udpPort: 5, tcpPort: 6 };
    let made = Node::new(endpoint, id(7));
    assert_eq!(made, Node { ipAddress: IpAddress::V4([1, 2, 3, 4]), udpPort: 5, tcpPort: 6, nodeID: id(7) });
    assert_eq!(made.endpoint(), endpoint);
    assert!(endpoint.same_as(&made.endpoint()));
    assert!(!endpoint.same_as(&Endpoint { ipAddress: IpAddress::V4([1, 2, 3, 4]), udpPort: 5, tcpPort: 7 }));
    assert!(!endpoint.same_as(&Endpoint { ipAddress: IpAddress::V4([1, 2, 3, 5]), udpPort: 5, tcpPort: 6 }));
    assert!(!IpAddress::V4([0; 4]).same_as(&IpAddress::V6([0; 16])));
    assert!(IpAddress::V6([3; 16]).same_as(&IpAddress::V6([3; 16])));
}

#[test]
fn stale_peers_without_a_pending_answer_are_due_for_a_ping() {
    let mut table = Kademlia::new(id(0));
    for v in [1u8, 2, 3, 5, 0xff] {
        table.insert_node(node(v), 0);
    }
    // bucket 252 holds 0xff, bucket 254 holds 2, bucket 255 holds 1, 3, 5
    assert_eq!(table.due_for_ping(1000), vec![node(0xff), node(2), node(1), node(3), node(5)]);
    table.record_ping(&id(3), hash(3), 1000);
    table.record_ping(&id(2), hash(2), 1000);
    assert!(table.confirm(&id(2), 1001));
    assert_eq!(table.due_for_ping(1002), vec![node(0xff), node(1), node(5)]);
    assert_eq!(table.due_for_ping(1005), vec![node(0xff), node(1), node(5)]);
    // the Ping to 3 has timed out; 2 was verified
    assert_eq!(table.due_for_ping(1006), vec![node(0xff), node(1), node(3), node(5)]);
    assert_eq!(table.due_for_ping(1001 + 43_200), vec![node(0xff), node(1), node(3), node(5)]);
    assert_eq!(
        table.due_for_ping(1001 + 43_201),
        vec![node(0xff), node(2), node(1), node(3), node(5)]
    );
    assert_eq!(Kademlia::new(id(0)).due_for_ping(5), Vec::<Node>::new());
    let mut peer = Peer::new(node(1));
    assert!(peer.is_due(0));
    peer.record_ping(hash(1), 10);
    assert!(!peer.is_due(15));
    assert!(peer.is_due(16));
    peer.record_pong(17);
    assert!(!peer.is_due(18));
}
