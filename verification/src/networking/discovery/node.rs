//! The node record: its encoding and its URL.
use super::endpoint::{lemma_octets_injective, IpAddress};
use super::identity::{array16, array4, array64, NodeId};
use super::kademlia::Node;
use super::rlp::{
    item, lemma_list_item_len, lemma_list_round_trip, lemma_string_item_len,
    lemma_string_round_trip, lemma_uint_item_len, lemma_uint_round_trip, list_item, put_list,
    put_string, put_uint, string_item, take_item, take_uint, uint, uint_item, DecodeError,
};
use super::text::{decimal, decimal_text, hex_chars, hex_encode};
use vstd::arithmetic::power2::lemma2_to64;
use vstd::prelude::*;
use vstd::string::StringExecFns;

verus! {

/// A node as a mathematical value: the octets of its address, its ports and the bytes of
/// its identifier.
pub ghost struct NodeView {
    pub ip: Seq<u8>,
    pub udpPort: u16,
    pub tcpPort: u16,
    pub nodeID: Seq<u8>,
}

impl View for Node {
    type V = NodeView;

    open spec fn view(&self) -> NodeView {
        NodeView {
            ip: self.ipAddress.octets(),
            udpPort: self.udpPort,
            tcpPort: self.tcpPort,
            nodeID: self.nodeID@,
        }
    }
}

impl NodeView {
    /// Whether the address has 4 or 16 octets and the identifier 64 bytes.
    pub open spec fn valid(self) -> bool {
        (self.ip.len() == 4 || self.ip.len() == 16) && self.nodeID.len() == 64
    }

    /// The items of the node, one after the other: the address as a string, the two ports
    /// as integers, the identifier as a string.
    pub open spec fn fields(self) -> Seq<u8> {
        string_item(self.ip) + (uint_item(self.udpPort as nat) + (uint_item(self.tcpPort as nat)
            + string_item(self.nodeID)))
    }

    /// The encoding of the node: the list of its items.
    pub open spec fn encoding(self) -> Seq<u8> {
        list_item(self.fields())
    }
}

/// The node that `input` starts with and the bytes after it: a list that holds a string of
/// 4 or 16 bytes, two integers under 65536 and a string of 64 bytes, and nothing else.
pub open spec fn parse_node(input: Seq<u8>) -> Option<(NodeView, Seq<u8>)> {
    let outer = item(input, true);
    let ip = item((outer->0).0, false);
    let udp = uint((ip->0).1);
    let tcp = uint((udp->0).1);
    let id = item((tcp->0).1, false);
    if outer is Some && ip is Some && ((ip->0).0.len() == 4 || (ip->0).0.len() == 16) && udp is Some
        && (udp->0).0 <= 0xFFFF && tcp is Some && (tcp->0).0 <= 0xFFFF && id is Some && (
    id->0).0.len() == 64 && (id->0).1.len() == 0 {
        Some(
            (
                NodeView {
                    ip: (ip->0).0,
                    udpPort: (udp->0).0 as u16,
                    tcpPort: (tcp->0).0 as u16,
                    nodeID: (id->0).0,
                },
                (outer->0).1,
            ),
        )
    } else {
        None
    }
}

/// Two nodes with the same view are the same node.
pub proof fn lemma_node_view_injective(a: Node, b: Node)
    requires
        a@ == b@,
    ensures
        a == b,
{
    lemma_octets_injective(a.ipAddress, b.ipAddress);
    assert(a.nodeID.bytes =~= b.nodeID.bytes);
}

/// A node is read back from its encoding, whatever follows.
pub proof fn lemma_node_round_trip(node: NodeView, rest: Seq<u8>)
    requires
        node.valid(),
    ensures
        parse_node(node.encoding() + rest) == Some((node, rest)),
{
    let empty = Seq::<u8>::empty();
    let after_tcp = string_item(node.nodeID);
    let after_udp = uint_item(node.tcpPort as nat) + after_tcp;
    let after_ip = uint_item(node.udpPort as nat) + after_udp;
    lemma2_to64();
    lemma_string_item_len(node.ip);
    lemma_string_item_len(node.nodeID);
    lemma_uint_item_len(node.udpPort as nat, 2);
    lemma_uint_item_len(node.tcpPort as nat, 2);
    lemma_list_item_len(node.fields());
    lemma_list_round_trip(node.fields(), rest);
    lemma_string_round_trip(node.ip, after_ip);
    lemma_uint_round_trip(node.udpPort as u64, after_udp);
    lemma_uint_round_trip(node.tcpPort as u64, after_tcp);
    lemma_string_round_trip(node.nodeID, empty);
    assert(after_tcp + empty =~= after_tcp);
}

impl Node {
    /// The text of the URL of the node, where `host` is the text of its address: the
    /// scheme, the identifier in hexadecimal, the host, the TCP port and the UDP port.
    pub open spec fn enode_text(self, host: Seq<char>) -> Seq<char> {
        "enode://"@ + hex_chars(self.nodeID@) + "@"@ + host + ":"@ + decimal(self.tcpPort as nat)
            + "?discport="@ + decimal(self.udpPort as nat)
    }

    /// The URL of the node. `host` is the text of its IP address.
    pub fn enode(&self, host: &str) -> (url: String)
        ensures
            url@ == self.enode_text(host@),
    {
        let encodedNodeID = hex_encode(&self.nodeID.bytes);
        let tcp = decimal_text(self.tcpPort);
        let udp = decimal_text(self.udpPort);
        let mut url = String::from_str("enode://");
        url.append(encodedNodeID.as_str());
        url.append("@");
        url.append(host);
        url.append(":");
        url.append(tcp.as_str());
        url.append("?discport=");
        url.append(udp.as_str());
        url
    }

    /// Appends the encoding of the node to `out`.
    pub fn encode(&self, out: &mut Vec<u8>)
        ensures
            final(out)@ == old(out)@ + self@.encoding(),
    {
        let mut fields: Vec<u8> = Vec::new();
        match &self.ipAddress {
            IpAddress::V4(octets) => put_string(octets, &mut fields),
            IpAddress::V6(octets) => put_string(octets, &mut fields),
        }
        put_uint(self.udpPort as u64, &mut fields);
        put_uint(self.tcpPort as u64, &mut fields);
        put_string(&self.nodeID.bytes, &mut fields);
        assert(fields@ =~= self@.fields());
        put_list(fields.as_slice(), out);
    }

    /// Reads the node that `input` starts with, and hands out the bytes after it.
    pub fn decode<'a>(input: &'a [u8]) -> (r: Result<(Node, &'a [u8]), DecodeError>)
        ensures
            match r {
                Ok((node, rest)) => parse_node(input@) == Some((node@, rest@)),
                Err(e) => parse_node(input@) is None && e == DecodeError::Malformed,
            },
    {
        let (payload, after) = match take_item(input, true) {
            Ok(taken) => taken,
            Err(_) => {
                return Err(DecodeError::Malformed);
            },
        };
        let (octets, after_ip) = match take_item(payload, false) {
            Ok(taken) => taken,
            Err(_) => {
                return Err(DecodeError::Malformed);
            },
        };
        let ipAddress = if octets.len() == 4 {
            IpAddress::V4(array4(octets))
        } else if octets.len() == 16 {
            IpAddress::V6(array16(octets))
        } else {
            return Err(DecodeError::Malformed);
        };
        let (udp, after_udp) = match take_uint(after_ip) {
            Ok(taken) => taken,
            Err(_) => {
                return Err(DecodeError::Malformed);
            },
        };
        if udp > 0xFFFF {
            return Err(DecodeError::Malformed);
        }
        let (tcp, after_tcp) = match take_uint(after_udp) {
            Ok(taken) => taken,
            Err(_) => {
                return Err(DecodeError::Malformed);
            },
        };
        if tcp > 0xFFFF {
            return Err(DecodeError::Malformed);
        }
        let (id, rest) = match take_item(after_tcp, false) {
            Ok(taken) => taken,
            Err(_) => {
                return Err(DecodeError::Malformed);
            },
        };
        if id.len() != 64 || rest.len() != 0 {
            return Err(DecodeError::Malformed);
        }
        Ok(
            (
                Node {
                    ipAddress,
                    udpPort: udp as u16,
                    tcpPort: tcp as u16,
                    nodeID: NodeId::new(array64(id)),
                },
                after,
            ),
        )
    }
}

} // verus!
