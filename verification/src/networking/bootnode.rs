//! The bootstrap nodes: the contacts that a node knows before it has discovered any.
use super::discovery::endpoint::IpAddress;
use super::discovery::identity::NodeId;
use super::discovery::kademlia::Node;
use vstd::prelude::*;

verus! {

/// An IP address and a port.
#[derive(Clone, Copy, Debug, PartialEq, Eq, Hash)]
pub struct SocketAddress {
    pub ip: IpAddress,
    pub port: u16,
}

/// A bootstrap node: an identifier and the address at which it listens.
#[derive(Clone, Copy, Debug, PartialEq, Eq)]
pub struct BootNode {
    pub nodeID: NodeId,
    pub socketAddress: SocketAddress,
}

impl BootNode {
    /// The node that the bootstrap node stands for: it is reached at the socket address,
    /// with the same port for UDP and TCP.
    pub open spec fn seed(self) -> Node {
        Node {
            ipAddress: self.socketAddress.ip,
            udpPort: self.socketAddress.port,
            tcpPort: self.socketAddress.port,
            nodeID: self.nodeID,
        }
    }

    /// The node to ping for this bootstrap node.
    pub fn node(&self) -> (node: Node)
        ensures
            node == self.seed(),
    {
        Node {
            ipAddress: self.socketAddress.ip,
            udpPort: self.socketAddress.port,
            tcpPort: self.socketAddress.port,
            nodeID: self.nodeID,
        }
    }
}

/// The nodes to ping at startup, one for each bootstrap node, in the same order.
pub fn seed_nodes(seeds: &[BootNode]) -> (nodes: Vec<Node>)
    ensures
        nodes@.len() == seeds@.len(),
        forall|i: int| 0 <= i < seeds@.len() ==> #[trigger] nodes@[i] == seeds@[i].seed(),
{
    let mut nodes: Vec<Node> = Vec::new();
    let mut i: usize = 0;
    while i < seeds.len()
        invariant
            i <= seeds@.len(),
            nodes@.len() == i,
            forall|k: int| 0 <= k < i ==> #[trigger] nodes@[k] == seeds@[k].seed(),
        decreases seeds@.len() - i,
    {
        nodes.push(seeds[i].node());
        i += 1;
    }
    nodes
}

} // verus!
