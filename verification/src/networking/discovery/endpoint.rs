//! Where a node can be reached.
use super::identity::{array16, array4, bytes_equal};
use super::rlp::{
    item, lemma_list_item_len, lemma_list_round_trip, lemma_string_item_len,
    lemma_string_round_trip, lemma_uint_item_len, lemma_uint_round_trip, list_item, put_list,
    put_string, put_uint, string_item, take_item, take_uint, uint, uint_item, DecodeError,
};
use vstd::arithmetic::power2::lemma2_to64;
use vstd::prelude::*;

verus! {

/// An IP address, version 4 or 6, as its octets in network order.
#[derive(Clone, Copy, Debug, PartialEq, Eq, Hash)]
pub enum IpAddress {
    V4([u8; 4]),
    V6([u8; 16]),
}

impl IpAddress {
    /// The octets of the address: 4 or 16 of them.
    pub open spec fn octets(self) -> Seq<u8> {
        match self {
            IpAddress::V4(o) => o@,
            IpAddress::V6(o) => o@,
        }
    }

    /// Whether `self` and `other` are the same address.
    pub fn same_as(&self, other: &IpAddress) -> (same: bool)
        ensures
            same == (*self == *other),
    {
        match (self, other) {
            (IpAddress::V4(a), IpAddress::V4(b)) => {
                let same = bytes_equal(a, b);
                proof {
                    if same {
                        assert(*a =~= *b);
                    }
                }
                same
            },
            (IpAddress::V6(a), IpAddress::V6(b)) => {
                let same = bytes_equal(a, b);
                proof {
                    if same {
                        assert(*a =~= *b);
                    }
                }
                same
            },
            _ => false,
        }
    }
}

/// An endpoint as a mathematical value: the octets of its address and its two ports.
pub ghost struct EndpointView {
    pub ip: Seq<u8>,
    pub udpPort: u16,
    pub tcpPort: u16,
}

/// The reachability of a node: its IP address and its UDP and TCP ports.
#[derive(Clone, Copy, Debug, PartialEq, Eq, Hash)]
pub struct Endpoint {
    pub ipAddress: IpAddress,
    pub udpPort: u16,
    pub tcpPort: u16,
}

impl View for Endpoint {
    type V = EndpointView;

    open spec fn view(&self) -> EndpointView {
        EndpointView { ip: self.ipAddress.octets(), udpPort: self.udpPort, tcpPort: self.tcpPort }
    }
}

/// Two addresses with the same octets are the same address.
pub proof fn lemma_octets_injective(a: IpAddress, b: IpAddress)
    requires
        a.octets() == b.octets(),
    ensures
        a == b,
{
    match (a, b) {
        (IpAddress::V4(x), IpAddress::V4(y)) => {
            assert(x =~= y);
        },
        (IpAddress::V6(x), IpAddress::V6(y)) => {
            assert(x =~= y);
        },
        (IpAddress::V4(x), IpAddress::V6(y)) => {
            assert(x@.len() == 4 && y@.len() == 16);
        },
        (IpAddress::V6(x), IpAddress::V4(y)) => {
            assert(x@.len() == 16 && y@.len() == 4);
        },
    }
}

impl Endpoint {
    /// Whether `self` and `other` are equal in every field.
    pub fn same_as(&self, other: &Endpoint) -> (same: bool)
        ensures
            same == (*self == *other),
    {
        self.ipAddress.same_as(&other.ipAddress) && self.udpPort == other.udpPort && self.tcpPort
            == other.tcpPort
    }
}

impl EndpointView {
    /// Whether the address has the octets of an IP address: 4 or 16.
    pub open spec fn valid(self) -> bool {
        self.ip.len() == 4 || self.ip.len() == 16
    }

    /// The items of the endpoint, one after the other: the address as a string, then the
    /// two ports as integers.
    pub open spec fn fields(self) -> Seq<u8> {
        string_item(self.ip) + (uint_item(self.udpPort as nat) + uint_item(self.tcpPort as nat))
    }

    /// The encoding of the endpoint: the list of its items.
    pub open spec fn encoding(self) -> Seq<u8> {
        list_item(self.fields())
    }
}

/// The endpoint that `input` starts with and the bytes after it: a list that holds a
/// string of 4 or 16 bytes and two integers under 65536, and nothing else.
pub open spec fn parse_endpoint(input: Seq<u8>) -> Option<(EndpointView, Seq<u8>)> {
    let outer = item(input, true);
    let ip = item((outer->0).0, false);
    let udp = uint((ip->0).1);
    let tcp = uint((udp->0).1);
    if outer is Some && ip is Some && ((ip->0).0.len() == 4 || (ip->0).0.len() == 16) && udp is Some
        && (udp->0).0 <= 0xFFFF && tcp is Some && (tcp->0).0 <= 0xFFFF && (tcp->0).1.len() == 0 {
        Some(
            (
                EndpointView {
                    ip: (ip->0).0,
                    udpPort: (udp->0).0 as u16,
                    tcpPort: (tcp->0).0 as u16,
                },
                (outer->0).1,
            ),
        )
    } else {
        None
    }
}

/// Two endpoints with the same view are the same endpoint.
pub proof fn lemma_endpoint_view_injective(a: Endpoint, b: Endpoint)
    requires
        a@ == b@,
    ensures
        a == b,
{
    lemma_octets_injective(a.ipAddress, b.ipAddress);
}

/// The encoding of an endpoint has at most 24 bytes.
pub proof fn lemma_endpoint_encoding_len(e: EndpointView)
    requires
        e.valid(),
    ensures
        e.fields().len() <= 23,
        e.encoding().len() <= 24,
{
    lemma2_to64();
    lemma_string_item_len(e.ip);
    lemma_uint_item_len(e.udpPort as nat, 2);
    lemma_uint_item_len(e.tcpPort as nat, 2);
    lemma_list_item_len(e.fields());
}

/// An endpoint is read back from its encoding, whatever follows.
pub proof fn lemma_endpoint_round_trip(e: EndpointView, rest: Seq<u8>)
    requires
        e.valid(),
    ensures
        parse_endpoint(e.encoding() + rest) == Some((e, rest)),
{
    let empty = Seq::<u8>::empty();
    let ports = uint_item(e.udpPort as nat) + uint_item(e.tcpPort as nat);
    lemma_endpoint_encoding_len(e);
    lemma_list_round_trip(e.fields(), rest);
    lemma_string_round_trip(e.ip, ports);
    lemma_uint_round_trip(e.udpPort as u64, uint_item(e.tcpPort as nat));
    lemma_uint_round_trip(e.tcpPort as u64, empty);
    assert(uint_item(e.tcpPort as nat) + empty =~= uint_item(e.tcpPort as nat));
}

impl Endpoint {
    /// Appends the encoding of the endpoint to `out`.
    pub fn encode(&self, out: &mut Vec<u8>)
        ensures
            final(out)@ == old(out)@ + self@.encoding(),
    {
        let mut fields: Vec<u8> = Vec::new();
        match &self.ipAddress {
            IpAddress::V4(octets) => put_string(octets, &mut fields),
            IpAddress::V6(octets) => put_string(octets, &mut fields),
        }
        put_uint(self.udpPort as u64, &mut fields);
        put_uint(self.tcpPort as u64, &mut fields);
        assert(fields@ =~= self@.fields());
        put_list(fields.as_slice(), out);
    }

    /// Reads the endpoint that `input` starts with, and hands out the bytes after it.
    pub fn decode<'a>(input: &'a [u8]) -> (r: Result<(Endpoint, &'a [u8]), DecodeError>)
        ensures
            match r {
                Ok((endpoint, rest)) => parse_endpoint(input@) == Some((endpoint@, rest@)),
                Err(e) => parse_endpoint(input@) is None && e == DecodeError::Malformed,
            },
    {
        let (payload, after) = match take_item(input, true) {
            Ok(taken) => taken,
            Err(_) => {
                return Err(DecodeError::Malformed);
            },
        };
        let (octets, after_ip) = match take_item(payload, false) {
            Ok(taken) => taken,
            Err(_) => {
                return Err(DecodeError::Malformed);
            },
        };
        let ipAddress = if octets.len() == 4 {
            IpAddress::V4(array4(octets))
        } else if octets.len() == 16 {
            IpAddress::V6(array16(octets))
        } else {
            return Err(DecodeError::Malformed);
        };
        let (udp, after_udp) = match take_uint(after_ip) {
            Ok(taken) => taken,
            Err(_) => {
                return Err(DecodeError::Malformed);
            },
        };
        if udp > 0xFFFF {
            return Err(DecodeError::Malformed);
        }
        let (tcp, after_tcp) = match take_uint(after_udp) {
            Ok(taken) => taken,
            Err(_) => {
                return Err(DecodeError::Malformed);
            },
        };
        if tcp > 0xFFFF || after_tcp.len() != 0 {
            return Err(DecodeError::Malformed);
        }
        Ok((Endpoint { ipAddress, udpPort: udp as u16, tcpPort: tcp as u16 }, after))
    }
}

} // verus!
