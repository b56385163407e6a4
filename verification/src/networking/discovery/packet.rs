//! The discovery packets: their layout on the wire, their hashes, and how they are written
//! and read.
//!
//! A packet is its hash (32 bytes), its signature (65 bytes), its type (1 byte) and then its
//! payload, a list of items. The hash is the Keccak-256 digest of all that follows it; the
//! signature signs the digest of the type and the payload.
use super::distance::{keccak256, keccak256_digest};
use super::endpoint::{
    lemma_endpoint_encoding_len, lemma_endpoint_round_trip, lemma_endpoint_view_injective,
    parse_endpoint, Endpoint, EndpointView,
};
use super::identity::{array32, array65, Hash256, Signature};
use super::rlp::{
    item, lemma_list_round_trip, lemma_string_item_len, lemma_string_round_trip,
    lemma_uint_item_shape, lemma_uint_round_trip, list_item, put_bytes, put_list, put_string,
    put_uint, string_item, take_item, take_uint, uint, uint_item, DecodeError,
};
use vstd::prelude::*;
use vstd::slice::slice_subrange;

verus! {

/// The packet type of a Ping.
pub const PING_TYPE: u8 = 1;

/// The packet type of a Pong.
pub const PONG_TYPE: u8 = 2;

/// The version of the discovery protocol that a Ping must carry.
pub const PROTOCOL_VERSION: u8 = 4;

/// The number of bytes before the payload: hash, signature and type.
pub const HEADER_LENGTH: usize = 98;

/// The header of a packet.
#[derive(Clone, Copy, Debug, PartialEq, Eq)]
pub struct PacketHeader {
    /// The Keccak-256 hash of the rest of the packet. It makes the packet recognisable
    /// where several protocols share a port, and serves no other purpose.
    pub hash: Hash256,
    /// The signature of the sender over the type and the payload.
    pub signature: Signature,
    /// The type of the packet: `PING_TYPE` or `PONG_TYPE`.
    pub packetType: u8,
}

/// The payload of a Ping.
#[derive(Clone, Copy, Debug, PartialEq, Eq)]
pub struct PingPacketData {
    /// The version of the discovery protocol that the sender speaks.
    pub version: u8,
    pub from: Endpoint,
    pub to: Endpoint,
    /// The absolute UNIX time stamp after which the packet is no longer processed.
    pub expiration: u64,
    /// The sequence number of the sender's node record.
    pub enrSequenceNumber: Option<u64>,
}

/// The payload of a Pong, the reply to a Ping.
#[derive(Clone, Copy, Debug, PartialEq, Eq)]
pub struct PongPacketData {
    /// The hash of the Ping that the Pong answers.
    pub pingHash: Hash256,
    /// The absolute UNIX time stamp after which the packet is no longer processed.
    pub expiration: u64,
    /// The sequence number of the sender's node record.
    pub enrSequenceNumber: Option<u64>,
}

/// The payload of a packet.
#[derive(Clone, Copy, Debug, PartialEq, Eq)]
pub enum PacketData {
    Ping(PingPacketData),
    Pong(PongPacketData),
}

/// The unit that is exchanged over the transport.
#[derive(Clone, Copy, Debug, PartialEq, Eq)]
pub struct Packet {
    pub header: PacketHeader,
    pub data: PacketData,
}

/// A Ping payload as a mathematical value.
pub ghost struct PingView {
    pub version: u8,
    pub from: EndpointView,
    pub to: EndpointView,
    pub expiration: u64,
    pub enrSequenceNumber: Option<u64>,
}

/// A Pong payload as a mathematical value.
pub ghost struct PongView {
    pub pingHash: Seq<u8>,
    pub expiration: u64,
    pub enrSequenceNumber: Option<u64>,
}

/// A payload as a mathematical value.
pub ghost enum PacketDataView {
    Ping(PingView),
    Pong(PongView),
}

/// A packet as a mathematical value.
pub ghost struct PacketView {
    pub hash: Seq<u8>,
    pub signature: Seq<u8>,
    pub packetType: u8,
    pub data: PacketDataView,
}

impl View for PingPacketData {
    type V = PingView;

    open spec fn view(&self) -> PingView {
        PingView {
            version: self.version,
            from: self.from@,
            to: self.to@,
            expiration: self.expiration,
            enrSequenceNumber: self.enrSequenceNumber,
        }
    }
}

impl View for PongPacketData {
    type V = PongView;

    open spec fn view(&self) -> PongView {
        PongView {
            pingHash: self.pingHash@,
            expiration: self.expiration,
            enrSequenceNumber: self.enrSequenceNumber,
        }
    }
}

impl View for PacketData {
    type V = PacketDataView;

    open spec fn view(&self) -> PacketDataView {
        match self {
            PacketData::Ping(ping) => PacketDataView::Ping(ping@),
            PacketData::Pong(pong) => PacketDataView::Pong(pong@),
        }
    }
}

impl View for Packet {
    type V = PacketView;

    open spec fn view(&self) -> PacketView {
        PacketView {
            hash: self.header.hash@,
            signature: self.header.signature@,
            packetType: self.header.packetType,
            data: self.data@,
        }
    }
}

/// The item of an optional last field: that of the number where there is one, nothing
/// where there is none.
pub open spec fn trailing_item(number: Option<u64>) -> Seq<u8> {
    match number {
        Some(n) => uint_item(n as nat),
        None => Seq::empty(),
    }
}

/// The optional last field that `input` holds, and the bytes after it: none where `input`
/// is empty, none where it starts with the empty string, else the integer it starts with.
pub open spec fn parse_trailing(input: Seq<u8>) -> Option<(Option<u64>, Seq<u8>)> {
    if input.len() == 0 {
        Some((None, input))
    } else if input[0] == 0x80 {
        Some((None, input.subrange(1, input.len() as int)))
    } else {
        match uint(input) {
            Some((n, rest)) => Some((Some(n as u64), rest)),
            None => None,
        }
    }
}

impl PingView {
    /// Whether the endpoints are valid and the sequence number, if there is one, is not 0:
    /// the item of 0 is the empty string, which is read as no number.
    pub open spec fn valid(self) -> bool {
        self.from.valid() && self.to.valid() && self.enrSequenceNumber != Some(0u64)
    }

    /// The items of the payload, one after the other.
    pub open spec fn fields(self) -> Seq<u8> {
        uint_item(self.version as nat) + (self.from.encoding() + (self.to.encoding() + (uint_item(
            self.expiration as nat,
        ) + trailing_item(self.enrSequenceNumber))))
    }

    /// The encoding of the payload: the list of its items.
    pub open spec fn encoding(self) -> Seq<u8> {
        list_item(self.fields())
    }
}

impl PongView {
    /// Whether the hash has 32 bytes and the sequence number, if there is one, is not 0.
    pub open spec fn valid(self) -> bool {
        self.pingHash.len() == 32 && self.enrSequenceNumber != Some(0u64)
    }

    /// The items of the payload, one after the other.
    pub open spec fn fields(self) -> Seq<u8> {
        string_item(self.pingHash) + (uint_item(self.expiration as nat) + trailing_item(
            self.enrSequenceNumber,
        ))
    }

    /// The encoding of the payload: the list of its items.
    pub open spec fn encoding(self) -> Seq<u8> {
        list_item(self.fields())
    }
}

impl PacketDataView {
    /// The packet type that goes with the payload.
    pub open spec fn tag(self) -> u8 {
        match self {
            PacketDataView::Ping(_) => PING_TYPE,
            PacketDataView::Pong(_) => PONG_TYPE,
        }
    }

    /// Whether the payload is valid as a Ping or as a Pong.
    pub open spec fn valid(self) -> bool {
        match self {
            PacketDataView::Ping(ping) => ping.valid(),
            PacketDataView::Pong(pong) => pong.valid(),
        }
    }

    /// The encoding of the payload.
    pub open spec fn encoding(self) -> Seq<u8> {
        match self {
            PacketDataView::Ping(ping) => ping.encoding(),
            PacketDataView::Pong(pong) => pong.encoding(),
        }
    }
}

impl PacketView {
    /// Whether hash and signature have their lengths, the type is that of the payload, and
    /// the payload is valid.
    pub open spec fn valid(self) -> bool {
        &&& self.hash.len() == 32
        &&& self.signature.len() == 65
        &&& self.packetType == self.data.tag()
        &&& self.data.valid()
    }

    /// The bytes that the signature signs the digest of: the type, then the payload.
    pub open spec fn signed_content(self) -> Seq<u8> {
        seq![self.packetType] + self.data.encoding()
    }

    /// The bytes that the hash is the digest of: the signature, then what is signed.
    pub open spec fn hashed_content(self) -> Seq<u8> {
        self.signature + self.signed_content()
    }

    /// The packet on the wire: hash, signature, type, payload.
    pub open spec fn encoding(self) -> Seq<u8> {
        self.hash + self.hashed_content()
    }
}

/// The Ping payload that `input` is the encoding of: a list that holds the version, two
/// endpoints, the expiration and perhaps a sequence number, and nothing else.
pub open spec fn parse_ping(input: Seq<u8>) -> Option<PingView> {
    let outer = item(input, true);
    let version = uint((outer->0).0);
    let from = parse_endpoint((version->0).1);
    let to = parse_endpoint((from->0).1);
    let expiration = uint((to->0).1);
    let number = parse_trailing((expiration->0).1);
    if outer is Some && (outer->0).1.len() == 0 && version is Some && (version->0).0 <= 0xFF
        && from is Some && to is Some && expiration is Some && number is Some && (number->0).1.len()
        == 0 {
        Some(
            PingView {
                version: (version->0).0 as u8,
                from: (from->0).0,
                to: (to->0).0,
                expiration: (expiration->0).0 as u64,
                enrSequenceNumber: (number->0).0,
            },
        )
    } else {
        None
    }
}

/// The Pong payload that `input` is the encoding of: a list that holds a hash of 32
/// bytes, the expiration and perhaps a sequence number, and nothing else.
pub open spec fn parse_pong(input: Seq<u8>) -> Option<PongView> {
    let outer = item(input, true);
    let hash = item((outer->0).0, false);
    let expiration = uint((hash->0).1);
    let number = parse_trailing((expiration->0).1);
    if outer is Some && (outer->0).1.len() == 0 && hash is Some && (hash->0).0.len() == 32
        && expiration is Some && number is Some && (number->0).1.len() == 0 {
        Some(
            PongView {
                pingHash: (hash->0).0,
                expiration: (expiration->0).0 as u64,
                enrSequenceNumber: (number->0).0,
            },
        )
    } else {
        None
    }
}

/// The payload of type `packetType` that `input` is the encoding of. A type other than
/// that of a Ping or a Pong is an error, whatever `input` holds.
pub open spec fn parse_data(packetType: u8, input: Seq<u8>) -> Result<PacketDataView, DecodeError> {
    if packetType == PING_TYPE {
        match parse_ping(input) {
            Some(ping) => Ok(PacketDataView::Ping(ping)),
            None => Err(DecodeError::Malformed),
        }
    } else if packetType == PONG_TYPE {
        match parse_pong(input) {
            Some(pong) => Ok(PacketDataView::Pong(pong)),
            None => Err(DecodeError::Malformed),
        }
    } else {
        Err(DecodeError::UnknownType)
    }
}

/// The packet that `input` is the encoding of.
pub open spec fn parse_packet(input: Seq<u8>) -> Result<PacketView, DecodeError> {
    if input.len() < HEADER_LENGTH {
        Err(DecodeError::TooShort)
    } else {
        match parse_data(input[97], input.subrange(98, input.len() as int)) {
            Ok(data) => Ok(
                PacketView {
                    hash: input.subrange(0, 32),
                    signature: input.subrange(32, 97),
                    packetType: input[97],
                    data,
                },
            ),
            Err(e) => Err(e),
        }
    }
}

proof fn lemma_trailing_round_trip(number: Option<u64>)
    requires
        number != Some(0u64),
    ensures
        parse_trailing(trailing_item(number)) == Some((number, Seq::<u8>::empty())),
        trailing_item(number).len() <= 9,
{
    let empty = Seq::<u8>::empty();
    match number {
        Some(n) => {
            lemma_uint_item_shape(n);
            lemma_uint_round_trip(n, empty);
            assert(uint_item(n as nat) + empty =~= uint_item(n as nat));
        },
        None => {},
    }
}

/// A valid Ping payload is read back from its encoding.
pub proof fn lemma_ping_round_trip(ping: PingView)
    requires
        ping.valid(),
    ensures
        parse_ping(ping.encoding()) == Some(ping),
        ping.fields().len() < 256,
{
    let empty = Seq::<u8>::empty();
    let last = trailing_item(ping.enrSequenceNumber);
    let after_to = uint_item(ping.expiration as nat) + last;
    let after_from = ping.to.encoding() + after_to;
    let after_version = ping.from.encoding() + after_from;
    lemma_uint_item_shape(ping.version as u64);
    lemma_uint_item_shape(ping.expiration);
    lemma_endpoint_encoding_len(ping.from);
    lemma_endpoint_encoding_len(ping.to);
    lemma_trailing_round_trip(ping.enrSequenceNumber);
    lemma_list_round_trip(ping.fields(), empty);
    assert(ping.encoding() + empty =~= ping.encoding());
    lemma_uint_round_trip(ping.version as u64, after_version);
    lemma_endpoint_round_trip(ping.from, after_from);
    lemma_endpoint_round_trip(ping.to, after_to);
    lemma_uint_round_trip(ping.expiration, last);
}

/// A valid Pong payload is read back from its encoding.
pub proof fn lemma_pong_round_trip(pong: PongView)
    requires
        pong.valid(),
    ensures
        parse_pong(pong.encoding()) == Some(pong),
        pong.fields().len() < 256,
{
    let empty = Seq::<u8>::empty();
    let last = trailing_item(pong.enrSequenceNumber);
    let after_hash = uint_item(pong.expiration as nat) + last;
    lemma_uint_item_shape(pong.expiration);
    lemma_string_item_len(pong.pingHash);
    lemma_trailing_round_trip(pong.enrSequenceNumber);
    lemma_list_round_trip(pong.fields(), empty);
    assert(pong.encoding() + empty =~= pong.encoding());
    lemma_string_round_trip(pong.pingHash, after_hash);
    lemma_uint_round_trip(pong.expiration, last);
}

/// Reading inverts writing: a valid packet is read back from its encoding.
pub proof fn lemma_packet_round_trip(packet: PacketView)
    requires
        packet.valid(),
    ensures
        parse_packet(packet.encoding()) == Ok::<PacketView, DecodeError>(packet),
{
    let input = packet.encoding();
    match packet.data {
        PacketDataView::Ping(ping) => lemma_ping_round_trip(ping),
        PacketDataView::Pong(pong) => lemma_pong_round_trip(pong),
    }
    assert(input.subrange(0, 32) =~= packet.hash);
    assert(input.subrange(32, 97) =~= packet.signature);
    assert(input[97] == packet.packetType);
    assert(input.subrange(98, input.len() as int) =~= packet.data.encoding());
}

/// Decoding what encoding wrote gives the packet back: if `read` is a result that
/// `Packet::decode` may return for the bytes that `Packet::encode` returns for the valid
/// packet `packet`, then `read` is that packet.
pub proof fn lemma_decode_inverts_encode(packet: Packet, read: Result<Packet, DecodeError>)
    requires
        packet.valid(),
        match read {
            Ok(other) => parse_packet(packet@.encoding()) == Ok::<PacketView, DecodeError>(
                other@,
            ),
            Err(e) => parse_packet(packet@.encoding()) == Err::<PacketView, DecodeError>(e),
        },
    ensures
        read == Ok::<Packet, DecodeError>(packet),
{
    lemma_packet_round_trip(packet@);
    match read {
        Ok(other) => lemma_packet_view_injective(packet, other),
        Err(_) => {},
    }
}

/// Bytes whose type byte is neither that of a Ping nor that of a Pong are no packet, and
/// the error says so, whatever the payload holds.
pub proof fn lemma_unknown_type_rejected(input: Seq<u8>)
    requires
        input.len() >= HEADER_LENGTH,
        input[97] != PING_TYPE,
        input[97] != PONG_TYPE,
    ensures
        parse_packet(input) == Err::<PacketView, DecodeError>(DecodeError::UnknownType),
{
}

/// Two packets with the same view are the same packet.
pub proof fn lemma_packet_view_injective(a: Packet, b: Packet)
    requires
        a@ == b@,
    ensures
        a == b,
{
    assert(a.header.hash.bytes =~= b.header.hash.bytes);
    assert(a.header.signature.bytes =~= b.header.signature.bytes);
    match (a.data, b.data) {
        (PacketData::Ping(x), PacketData::Ping(y)) => {
            lemma_endpoint_view_injective(x.from, y.from);
            lemma_endpoint_view_injective(x.to, y.to);
        },
        (PacketData::Pong(x), PacketData::Pong(y)) => {
            assert(x.pingHash.bytes =~= y.pingHash.bytes);
        },
        _ => {},
    }
}

/// Appends the item of an optional last field to `out`.
fn put_trailing(number: &Option<u64>, out: &mut Vec<u8>)
    ensures
        final(out)@ == old(out)@ + trailing_item(*number),
{
    match number {
        Some(n) => put_uint(*n, out),
        None => {
            assert(out@ + Seq::<u8>::empty() =~= out@);
        },
    }
}

/// Reads the optional last field of a payload.
fn take_trailing<'a>(input: &'a [u8]) -> (r: Option<(Option<u64>, &'a [u8])>)
    ensures
        match r {
            Some((number, rest)) => parse_trailing(input@) == Some((number, rest@)),
            None => parse_trailing(input@) is None,
        },
{
    if input.len() == 0 {
        Some((None, input))
    } else if input[0] == 0x80 {
        Some((None, slice_subrange(input, 1, input.len())))
    } else {
        match take_uint(input) {
            Ok((n, rest)) => Some((Some(n), rest)),
            Err(_) => None,
        }
    }
}

impl PingPacketData {
    /// Appends the encoding of the payload to `out`.
    pub fn encode(&self, out: &mut Vec<u8>)
        ensures
            final(out)@ == old(out)@ + self@.encoding(),
    {
        let mut fields: Vec<u8> = Vec::new();
        put_uint(self.version as u64, &mut fields);
        self.from.encode(&mut fields);
        self.to.encode(&mut fields);
        put_uint(self.expiration, &mut fields);
        put_trailing(&self.enrSequenceNumber, &mut fields);
        assert(fields@ =~= self@.fields());
        put_list(fields.as_slice(), out);
    }

    /// Reads the Ping payload that `input` is the encoding of.
    pub fn decode(input: &[u8]) -> (r: Result<PingPacketData, DecodeError>)
        ensures
            match r {
                Ok(ping) => parse_ping(input@) == Some(ping@),
                Err(e) => parse_ping(input@) is None && e == DecodeError::Malformed,
            },
    {
        let (payload, after) = match take_item(input, true) {
            Ok(taken) => taken,
            Err(_) => {
                return Err(DecodeError::Malformed);
            },
        };
        if after.len() != 0 {
            return Err(DecodeError::Malformed);
        }
        let (version, after_version) = match take_uint(payload) {
            Ok(taken) => taken,
            Err(_) => {
                return Err(DecodeError::Malformed);
            },
        };
        if version > 0xFF {
            return Err(DecodeError::Malformed);
        }
        let (from, after_from) = match Endpoint::decode(after_version) {
            Ok(taken) => taken,
            Err(_) => {
                return Err(DecodeError::Malformed);
            },
        };
        let (to, after_to) = match Endpoint::decode(after_from) {
            Ok(taken) => taken,
            Err(_) => {
                return Err(DecodeError::Malformed);
            },
        };
        let (expiration, after_expiration) = match take_uint(after_to) {
            Ok(taken) => taken,
            Err(_) => {
                return Err(DecodeError::Malformed);
            },
        };
        let (enrSequenceNumber, rest) = match take_trailing(after_expiration) {
            Some(taken) => taken,
            None => {
                return Err(DecodeError::Malformed);
            },
        };
        if rest.len() != 0 {
            return Err(DecodeError::Malformed);
        }
        Ok(PingPacketData { version: version as u8, from, to, expiration, enrSequenceNumber })
    }
}

impl PongPacketData {
    /// Appends the encoding of the payload to `out`.
    pub fn encode(&self, out: &mut Vec<u8>)
        ensures
            final(out)@ == old(out)@ + self@.encoding(),
    {
        let mut fields: Vec<u8> = Vec::new();
        put_string(&self.pingHash.bytes, &mut fields);
        put_uint(self.expiration, &mut fields);
        put_trailing(&self.enrSequenceNumber, &mut fields);
        assert(fields@ =~= self@.fields());
        put_list(fields.as_slice(), out);
    }

    /// Reads the Pong payload that `input` is the encoding of.
    pub fn decode(input: &[u8]) -> (r: Result<PongPacketData, DecodeError>)
        ensures
            match r {
                Ok(pong) => parse_pong(input@) == Some(pong@),
                Err(e) => parse_pong(input@) is None && e == DecodeError::Malformed,
            },
    {
        let (payload, after) = match take_item(input, true) {
            Ok(taken) => taken,
            Err(_) => {
                return Err(DecodeError::Malformed);
            },
        };
        if after.len() != 0 {
            return Err(DecodeError::Malformed);
        }
        let (hash, after_hash) = match take_item(payload, false) {
            Ok(taken) => taken,
            Err(_) => {
                return Err(DecodeError::Malformed);
            },
        };
        if hash.len() != 32 {
            return Err(DecodeError::Malformed);
        }
        let (expiration, after_expiration) = match take_uint(after_hash) {
            Ok(taken) => taken,
            Err(_) => {
                return Err(DecodeError::Malformed);
            },
        };
        let (enrSequenceNumber, rest) = match take_trailing(after_expiration) {
            Some(taken) => taken,
            None => {
                return Err(DecodeError::Malformed);
            },
        };
        if rest.len() != 0 {
            return Err(DecodeError::Malformed);
        }
        Ok(PongPacketData { pingHash: Hash256::new(array32(hash)), expiration, enrSequenceNumber })
    }
}

impl PacketData {
    /// The packet type that goes with the payload.
    pub fn packet_type(&self) -> (packetType: u8)
        ensures
            packetType == self@.tag(),
    {
        match self {
            PacketData::Ping(_) => PING_TYPE,
            PacketData::Pong(_) => PONG_TYPE,
        }
    }

    /// Appends the encoding of the payload to `out`.
    pub fn encode(&self, out: &mut Vec<u8>)
        ensures
            final(out)@ == old(out)@ + self@.encoding(),
    {
        match self {
            PacketData::Ping(pingPacketData) => pingPacketData.encode(out),
            PacketData::Pong(pongPacketData) => pongPacketData.encode(out),
        }
    }

    /// Reads the payload of a packet of type `packetType` from `buf`.
    pub fn decode(packetType: u8, buf: &[u8]) -> (r: Result<PacketData, DecodeError>)
        ensures
            match r {
                Ok(data) => parse_data(packetType, buf@) == Ok::<PacketDataView, DecodeError>(
                    data@,
                ),
                Err(e) => parse_data(packetType, buf@) == Err::<PacketDataView, DecodeError>(e),
            },
    {
        if packetType == PING_TYPE {
            match PingPacketData::decode(buf) {
                Ok(ping) => Ok(PacketData::Ping(ping)),
                Err(e) => Err(e),
            }
        } else if packetType == PONG_TYPE {
            match PongPacketData::decode(buf) {
                Ok(pong) => Ok(PacketData::Pong(pong)),
                Err(e) => Err(e),
            }
        } else {
            Err(DecodeError::UnknownType)
        }
    }

    /// The hash that the sender signs: the Keccak-256 digest of the type and the payload.
    pub fn signing_hash(&self) -> (hash: Hash256)
        ensures
            hash@ == keccak256_digest(seq![self@.tag()] + self@.encoding()),
    {
        let mut content: Vec<u8> = Vec::new();
        content.push(self.packet_type());
        self.encode(&mut content);
        Hash256::new(keccak256(content.as_slice()))
    }
}

impl Packet {
    /// Whether the type in the header is that of the payload, and the sequence number of
    /// the payload, if there is one, is not 0.
    pub open spec fn valid(&self) -> bool {
        self@.valid()
    }

    /// The packet for `data` signed with `signature`: its type is that of `data`, its hash
    /// the digest of signature, type and payload.
    pub fn seal(signature: Signature, data: PacketData) -> (packet: Packet)
        ensures
            packet.header.signature == signature,
            packet.header.packetType == data@.tag(),
            packet.data == data,
            packet.header.hash@ == keccak256_digest(packet@.hashed_content()),
    {
        let mut content: Vec<u8> = Vec::new();
        put_bytes(&signature.bytes, &mut content);
        content.push(data.packet_type());
        data.encode(&mut content);
        let packet = Packet {
            header: PacketHeader {
                hash: Hash256::new(keccak256(content.as_slice())),
                signature,
                packetType: data.packet_type(),
            },
            data,
        };
        assert(content@ =~= packet@.hashed_content());
        packet
    }

    /// Whether the hash in the header is the digest of the rest of the packet.
    pub fn hash_matches(&self) -> (matches: bool)
        ensures
            matches == (self.header.hash@ == keccak256_digest(self@.hashed_content())),
    {
        let mut content: Vec<u8> = Vec::new();
        put_bytes(&self.header.signature.bytes, &mut content);
        content.push(self.header.packetType);
        self.data.encode(&mut content);
        assert(content@ =~= self@.hashed_content());
        let digest = Hash256::new(keccak256(content.as_slice()));
        self.header.hash.same_as(&digest)
    }

    /// The packet as it goes on the wire.
    pub fn encode(&self) -> (bytes: Vec<u8>)
        ensures
            bytes@ == self@.encoding(),
    {
        let mut bytes: Vec<u8> = Vec::new();
        put_bytes(&self.header.hash.bytes, &mut bytes);
        put_bytes(&self.header.signature.bytes, &mut bytes);
        bytes.push(self.header.packetType);
        self.data.encode(&mut bytes);
        assert(bytes@ =~= self@.encoding());
        bytes
    }

    /// Reads a packet from the bytes of a datagram.
    ///
    /// Fails with `TooShort` where the bytes end before the header does, with `UnknownType`
    /// where the type is neither that of a Ping nor that of a Pong, and with `Malformed`
    /// where what follows the header is not the encoding of a payload of that type.
    pub fn decode(bytes: &[u8]) -> (r: Result<Packet, DecodeError>)
        ensures
            match r {
                Ok(packet) => parse_packet(bytes@) == Ok::<PacketView, DecodeError>(packet@)
                    && packet@.packetType == packet@.data.tag(),
                Err(e) => parse_packet(bytes@) == Err::<PacketView, DecodeError>(e),
            },
    {
        if bytes.len() < HEADER_LENGTH {
            return Err(DecodeError::TooShort);
        }
        let packetType = bytes[97];
        let data = match PacketData::decode(packetType, slice_subrange(bytes, 98, bytes.len())) {
            Ok(data) => data,
            Err(e) => {
                return Err(e);
            },
        };
        let hash = Hash256::new(array32(slice_subrange(bytes, 0, 32)));
        let signature = Signature::new(array65(slice_subrange(bytes, 32, 97)));
        Ok(Packet { header: PacketHeader { hash, signature, packetType }, data })
    }
}

} // verus!
