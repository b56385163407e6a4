use peer_discovery::networking::discovery::endpoint::{Endpoint, IpAddress};
use peer_discovery::networking::discovery::identity::{Hash256, Signature};
use peer_discovery::networking::discovery::packet::{
    Packet, PacketData, PacketHeader, PingPacketData, PongPacketData, HEADER_LENGTH, PING_TYPE,
    PONG_TYPE, PROTOCOL_VERSION,
};
use peer_discovery::networking::discovery::rlp::DecodeError;

fn unhex(text: &str) -> Vec<u8> {
    (0..text.len() / 2).map(|i| u8::from_str_radix(&text[2 * i..2 * i + 2], 16).unwrap()).collect()
}

fn v4(a: u8, b: u8, c: u8, d: u8, udp: u16, tcp: u16) -> Endpoint {
    Endpoint { ipAddress: IpAddress::V4([a, b, c, d]), udpPort: udp, tcpPort: tcp }
}

fn ping1() -> PingPacketData {
    PingPacketData {
        version: 4,
        from: v4(127, 0, 0, 1, 30303, 30303),
        to: v4(10, 0, 0, 2, 30304, 0),
        expiration: 1_700_000_000,
        enrSequenceNumber: None,
    }
}

fn ping2() -> PingPacketData {
    let mut octets = [0u8; 16];
    for i in 0..16 {
        octets[i] = i as u8;
    }
    PingPacketData {
        version: 4,
        from: Endpoint { ipAddress: IpAddress::V6(octets), udpPort: 65535, tcpPort: 1 },
        to: v4(192, 168, 1, 1, 128, 127),
        expiration: u64::MAX,
        enrSequenceNumber: Some(7),
    }
}

fn ping3() -> PingPacketData {
    let mut a = [0u8; 16];
    a[..4].copy_from_slice(&[0x20, 0x01, 0x0d, 0xb8]);
    a[15] = 1;
    let mut b = [0u8; 16];
    b[0] = 0xfe;
    b[1] = 0x80;
    b[15] = 2;
    PingPacketData {
        version: 4,
        from: Endpoint { ipAddress: IpAddress::V6(a), udpPort: 30303, tcpPort: 30303 },
        to: Endpoint { ipAddress: IpAddress::V6(b), udpPort: 40404, tcpPort: 40405 },
        expiration: u64::MAX,
        enrSequenceNumber: Some(0x0102030405060708),
    }
}

fn counting_hash() -> Hash256 {
    let mut bytes = [0u8; 32];
    for i in 0..32 {
        bytes[i] = i as u8;
    }
    Hash256::new(bytes)
}

fn pong1() -> PongPacketData {
    PongPacketData { pingHash: counting_hash(), expiration: 1_700_000_000, enrSequenceNumber: None }
}

fn pong2() -> PongPacketData {
    PongPacketData { pingHash: counting_hash(), expiration: 300, enrSequenceNumber: Some(1000) }
}

const PING1: &str = "dc04cb847f00000182765f82765fc9840a00000282766080846553f100";
const PING2: &str =
    "ea04d590000102030405060708090a0b0c0d0e0f82ffff01c884c0a8010181807f88ffffffffffffffff07";
const PING3: &str = "f84304d79020010db800000000000000000000000182765f82765fd790fe800000000000000000000000000002829dd4829dd588ffffffffffffffff880102030405060708";
const PONG1: &str =
    "e6a0000102030405060708090a0b0c0d0e0f101112131415161718191a1b1c1d1e1f846553f100";
const PONG2: &str =
    "e7a0000102030405060708090a0b0c0d0e0f101112131415161718191a1b1c1d1e1f82012c8203e8";

fn signature() -> Signature {
    Signature::new([0xAB; 65])
}

fn framed(packet_type: u8, payload: &[u8]) -> Vec<u8> {
    let mut bytes = vec![0x11u8; 32];
    bytes.extend_from_slice(&[0xAB; 65]);
    bytes.push(packet_type);
    bytes.extend_from_slice(payload);
    bytes
}

fn encoded(data: &PacketData) -> Vec<u8> {
    let mut out = Vec::new();
    data.encode(&mut out);
    out
}

#[test]
fn ping_payload_has_the_expected_bytes() {
    assert_eq!(encoded(&PacketData::Ping(ping1())), unhex(PING1));
    assert_eq!(encoded(&PacketData::Ping(ping2())), unhex(PING2));
    assert_eq!(encoded(&PacketData::Ping(ping3())), unhex(PING3));
}

#[test]
fn pong_payload_has_the_expected_bytes() {
    assert_eq!(encoded(&PacketData::Pong(pong1())), unhex(PONG1));
    assert_eq!(encoded(&PacketData::Pong(pong2())), unhex(PONG2));
}

#[test]
fn encoding_appends_to_what_is_there() {
    let mut out = vec![1u8, 2, 3];
    ping1().encode(&mut out);
    pong1().encode(&mut out);
    let mut expected = vec![1u8, 2, 3];
    expected.extend(unhex(PING1));
    expected.extend(unhex(PONG1));
    assert_eq!(out, expected);
}

#[test]
fn endpoint_has_the_expected_bytes() {
    let mut out = Vec::new();
    v4(127, 0, 0, 1, 30303, 30303).encode(&mut out);
    assert_eq!(out, unhex("cb847f00000182765f82765f"));
    let mut out = Vec::new();
    v4(0, 0, 0, 0, 0, 0).encode(&mut out);
    assert_eq!(out, unhex("c784000000008080"));
    let mut out = Vec::new();
    v4(1, 2, 3, 4, 127, 128).encode(&mut out);
    assert_eq!(out, unhex("c884010203047f8180"));
}

#[test]
fn endpoint_is_read_with_what_follows() {
    let bytes = unhex("cb847f00000182765f82765fc0ffee");
    let (endpoint, rest) = Endpoint::decode(&bytes).unwrap();
    assert_eq!(endpoint, v4(127, 0, 0, 1, 30303, 30303));
    assert_eq!(rest, &[0xc0, 0xff, 0xee][..]);
    assert_eq!(Endpoint::decode(&unhex("cb847f00000182765f82765e")).unwrap().0.tcpPort, 30302);
}

#[test]
fn endpoint_with_a_wrong_shape_is_refused() {
    for bytes in [
        "",
        "c0",
        "8b847f00000182765f82765f",
        "cb847f00000182765f8276",
        "ca837f000082765f82765f",
        "cc857f0000010182765f82765f",
        "cc847f0000018301000082765f",
        "cc847f00000182765f83010000",
        "cc847f00000182765f82765f01",
        "cb847f0000018200ff82765f",
        "ca847f0000018100 82765f",
        "cbc47f00000182765f82765f",
    ] {
        let bytes = unhex(&bytes.replace(' ', ""));
        assert_eq!(Endpoint::decode(&bytes), Err(DecodeError::Malformed));
    }
}

#[test]
fn packet_goes_on_the_wire_as_hash_signature_type_payload() {
    let packet = Packet {
        header: PacketHeader { hash: Hash256::new([0x11; 32]), signature: signature(), packetType: 1 },
        data: PacketData::Ping(ping1()),
    };
    let bytes = packet.encode();
    assert_eq!(HEADER_LENGTH, 98);
    assert_eq!(bytes.len(), 98 + 29);
    assert_eq!(bytes, framed(1, &unhex(PING1)));
    let packet = Packet {
        header: PacketHeader { hash: Hash256::new([0x11; 32]), signature: signature(), packetType: 2 },
        data: PacketData::Pong(pong2()),
    };
    assert_eq!(packet.encode(), framed(2, &unhex(PONG2)));
}

#[test]
fn decoding_reads_back_what_encoding_wrote() {
    let payloads = [
        PacketData::Ping(ping1()),
        PacketData::Ping(ping2()),
        PacketData::Ping(ping3()),
        PacketData::Pong(pong1()),
        PacketData::Pong(pong2()),
        PacketData::Ping(PingPacketData { version: 0, expiration: 0, ..ping1() }),
        PacketData::Ping(PingPacketData { version: 255, expiration: 127, ..ping2() }),
        PacketData::Ping(PingPacketData { version: 128, expiration: 128, enrSequenceNumber: Some(u64::MAX), ..ping3() }),
        PacketData::Pong(PongPacketData { pingHash: Hash256::new([0; 32]), expiration: 0, enrSequenceNumber: Some(1) }),
        PacketData::Pong(PongPacketData { pingHash: Hash256::new([0xff; 32]), expiration: 256, enrSequenceNumber: Some(128) }),
    ];
    for data in payloads {
        let sealed = Packet::seal(signature(), data);
        assert_eq!(Packet::decode(&sealed.encode()), Ok(sealed));
        let plain = Packet {
            header: PacketHeader {
                hash: Hash256::new([3; 32]),
                signature: Signature::new([4; 65]),
                packetType: data.packet_type(),
            },
            data,
        };
        assert_eq!(Packet::decode(&plain.encode()), Ok(plain));
        assert_eq!(PacketData::decode(data.packet_type(), &encoded(&data)), Ok(data));
    }
}

#[test]
fn decoding_reads_the_expected_values() {
    let packet = Packet::decode(&framed(1, &unhex(PING2))).unwrap();
    assert_eq!(packet.header.hash, Hash256::new([0x11; 32]));
    assert_eq!(packet.header.signature, signature());
    assert_eq!(packet.header.packetType, PING_TYPE);
    assert_eq!(packet.data, PacketData::Ping(ping2()));
    let packet = Packet::decode(&framed(2, &unhex(PONG1))).unwrap();
    assert_eq!(packet.header.packetType, PONG_TYPE);
    assert_eq!(packet.data, PacketData::Pong(pong1()));
    assert_eq!(PingPacketData::decode(&unhex(PING3)), Ok(ping3()));
    assert_eq!(PongPacketData::decode(&unhex(PONG2)), Ok(pong2()));
}

#[test]
fn unknown_packet_type_is_a_decode_error() {
    for packet_type in [0u8, 3, 4, 0x80, 0xff] {
        assert_eq!(Packet::decode(&framed(packet_type, &unhex(PING1))), Err(DecodeError::UnknownType));
        assert_eq!(Packet::decode(&framed(packet_type, &unhex(PONG1))), Err(DecodeError::UnknownType));
        assert_eq!(Packet::decode(&framed(packet_type, &[])), Err(DecodeError::UnknownType));
        assert_eq!(Packet::decode(&framed(packet_type, &[0xff, 0xff])), Err(DecodeError::UnknownType));
        assert_eq!(PacketData::decode(packet_type, &unhex(PING1)), Err(DecodeError::UnknownType));
    }
}

#[test]
fn bytes_shorter_than_the_header_are_too_short() {
    assert_eq!(Packet::decode(&[]), Err(DecodeError::TooShort));
    assert_eq!(Packet::decode(&[1u8; 97]), Err(DecodeError::TooShort));
    assert_eq!(Packet::decode(&framed(1, &[])[..97]), Err(DecodeError::TooShort));
    assert_eq!(Packet::decode(&framed(1, &[])), Err(DecodeError::Malformed));
    assert_eq!(Packet::decode(&framed(9, &[])), Err(DecodeError::UnknownType));
}

#[test]
fn payload_of_the_other_type_is_malformed() {
    assert_eq!(Packet::decode(&framed(2, &unhex(PING1))), Err(DecodeError::Malformed));
    assert_eq!(Packet::decode(&framed(1, &unhex(PONG1))), Err(DecodeError::Malformed));
}

#[test]
fn malformed_ping_payloads_are_refused() {
    let good = unhex(PING1);
    assert_eq!(PingPacketData::decode(&good), Ok(ping1()));
    let mut trailing = good.clone();
    trailing.push(0);
    assert_eq!(PingPacketData::decode(&trailing), Err(DecodeError::Malformed));
    assert_eq!(PingPacketData::decode(&good[..28]), Err(DecodeError::Malformed));
    assert_eq!(PingPacketData::decode(&good[1..]), Err(DecodeError::Malformed));
    for bytes in [
        "",
        "c0",
        "80",
        "9c04cb847f00000182765f82765fc9840a00000282766080846553f100",
        // the version does not fit in a byte
        "de820100cb847f00000182765f82765fc9840a00000282766080846553f100",
        // the version is a single byte behind a header
        "dd8104cb847f00000182765f82765fc9840a00000282766080846553f100",
        // the version has a leading zero
        "de820004cb847f00000182765f82765fc9840a00000282766080846553f100",
        // the version is a list
        "ddc104cb847f00000182765f82765fc9840a00000282766080846553f100",
        // the expiration has nine bytes
        "e104cb847f00000182765f82765fc9840a00000282766080890100000000000000 00",
        // the expiration is missing
        "d704cb847f00000182765f82765fc9840a000002827660 80",
        // the second endpoint is missing
        "d204cb847f00000182765f82765f846553f100",
        // something follows the sequence number
        "de04cb847f00000182765f82765fc9840a00000282766080846553f1000707",
        // the sequence number has a leading zero
        "df04cb847f00000182765f82765fc9840a00000282766080846553f100820007",
        // the list is longer than announced
        "db04cb847f00000182765f82765fc9840a00000282766080846553f100",
        // the length of the list is written in the long form
        "f81c04cb847f00000182765f82765fc9840a00000282766080846553f100",
    ] {
        let bytes = unhex(&bytes.replace(' ', ""));
        assert_eq!(PingPacketData::decode(&bytes), Err(DecodeError::Malformed));
        assert_eq!(Packet::decode(&framed(1, &bytes)), Err(DecodeError::Malformed));
    }
}

#[test]
fn malformed_pong_payloads_are_refused() {
    let good = unhex(PONG1);
    assert_eq!(PongPacketData::decode(&good[..good.len() - 1]), Err(DecodeError::Malformed));
    let mut trailing = good.clone();
    trailing.push(0x80);
    assert_eq!(PongPacketData::decode(&trailing), Err(DecodeError::Malformed));
    for bytes in [
        // the hash has 31 bytes
        "e59f000102030405060708090a0b0c0d0e0f101112131415161718191a1b1c1d1e846553f100",
        // the hash has 33 bytes
        "e7a1000102030405060708090a0b0c0d0e0f101112131415161718191a1b1c1d1e1f20846553f100",
        // the hash is a list
        "e6e0000102030405060708090a0b0c0d0e0f101112131415161718191a1b1c1d1e1f846553f100",
        // the expiration is missing
        "e1a0000102030405060708090a0b0c0d0e0f101112131415161718191a1b1c1d1e1f",
    ] {
        assert_eq!(PongPacketData::decode(&unhex(bytes)), Err(DecodeError::Malformed));
        assert_eq!(Packet::decode(&framed(2, &unhex(bytes))), Err(DecodeError::Malformed));
    }
}

#[test]
fn empty_string_in_the_last_place_is_no_sequence_number() {
    let bytes = unhex("dd04cb847f00000182765f82765fc9840a00000282766080846553f10080");
    assert_eq!(PingPacketData::decode(&bytes), Ok(ping1()));
    let bytes = unhex(
        "e7a0000102030405060708090a0b0c0d0e0f101112131415161718191a1b1c1d1e1f846553f10080",
    );
    assert_eq!(PongPacketData::decode(&bytes), Ok(pong1()));
}

#[test]
fn sequence_number_zero_is_read_back_as_none() {
    let zero = PingPacketData { enrSequenceNumber: Some(0), ..ping1() };
    let mut bytes = Vec::new();
    zero.encode(&mut bytes);
    assert_eq!(bytes, unhex("dd04cb847f00000182765f82765fc9840a00000282766080846553f10080"));
    assert_eq!(PingPacketData::decode(&bytes), Ok(ping1()));
}

#[test]
fn sealing_computes_the_hash_of_the_packet() {
    let packet = Packet::seal(signature(), PacketData::Ping(ping1()));
    assert_eq!(packet.header.signature, signature());
    assert_eq!(packet.header.packetType, 1);
    assert_eq!(packet.data, PacketData::Ping(ping1()));
    assert_eq!(
        packet.header.hash.bytes.to_vec(),
        unhex("d4aceaa8bed5c79b847042f6443647fd2a8e841b95d1666b01097a6e63fb6a2a")
    );
    let packet = Packet::seal(signature(), PacketData::Pong(pong1()));
    assert_eq!(packet.header.packetType, 2);
    assert_eq!(
        packet.header.hash.bytes.to_vec(),
        unhex("687ab3dbb976538766d3bc50140ecdfb99046b243aac49afe5eabd29188f28a2")
    );
    let packet = Packet::seal(signature(), PacketData::Ping(ping3()));
    assert_eq!(
        packet.header.hash.bytes.to_vec(),
        unhex("ad0648995433538276842d9d453dd6617d081dcd0d967e86c2e1928598cd8c12")
    );
}

#[test]
fn signing_hash_covers_type_and_payload() {
    assert_eq!(
        PacketData::Ping(ping1()).signing_hash().bytes.to_vec(),
        unhex("d0b17dadd0e97144187b32f5ab6f36d991e5a70b8c7bc365b41e7771134494ce")
    );
    assert_eq!(
        PacketData::Pong(pong1()).signing_hash().bytes.to_vec(),
        unhex("f7b85a47c6930e24fa4856d22845553a8c6d72601d8a48565ec91f17f2d1b177")
    );
}

#[test]
fn hash_matches_only_the_packet_it_was_computed_for() {
    let sealed = Packet::seal(signature(), PacketData::Ping(ping1()));
    assert!(sealed.hash_matches());
    let mut other = sealed;
    other.header.signature = Signature::new([0xAC; 65]);
    assert!(!other.hash_matches());
    let mut other = sealed;
    other.header.packetType = 2;
    assert!(!other.hash_matches());
    let mut other = sealed;
    other.data = PacketData::Ping(PingPacketData { expiration: 1_700_000_001, ..ping1() });
    assert!(!other.hash_matches());
    let mut other = sealed;
    other.header.hash = Hash256::new([0; 32]);
    assert!(!other.hash_matches());
    assert!(Packet::decode(&sealed.encode()).unwrap().hash_matches());
}

#[test]
fn packet_types_and_version_have_their_values() {
    assert_eq!(PING_TYPE, 1);
    assert_eq!(PONG_TYPE, 2);
    assert_eq!(PROTOCOL_VERSION, 4);
    assert_eq!(PacketData::Ping(ping1()).packet_type(), 1);
    assert_eq!(PacketData::Pong(pong1()).packet_type(), 2);
}
