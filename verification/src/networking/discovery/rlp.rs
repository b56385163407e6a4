//! The recursive-length-prefix items that the packet payloads are made of: byte strings,
//! unsigned integers and lists, as `alloy_rlp` writes and reads them.
use super::distance::be_value;
use vstd::arithmetic::power2::{lemma2_to64, lemma_pow2_adds, pow2};
use vstd::prelude::*;

verus! {

/// The big-endian bytes of `n` without leading zero bytes; none for 0.
pub open spec fn be_bytes(n: nat) -> Seq<u8>
    decreases n,
{
    if n == 0 {
        Seq::empty()
    } else {
        be_bytes(n / 256).push((n % 256) as u8)
    }
}

/// The header of an item with a payload of `len` bytes: one byte that holds the length
/// where it is under 56, else one byte that holds the width of the length and then the
/// length itself in big-endian bytes.
pub open spec fn header(list: bool, len: nat) -> Seq<u8> {
    let base: nat = if list {
        0xC0
    } else {
        0x80
    };
    if len < 56 {
        seq![(base + len) as u8]
    } else {
        seq![(base + 55 + be_bytes(len).len()) as u8] + be_bytes(len)
    }
}

/// The item for the byte string `bytes`: a single byte under 0x80 stands for itself, any
/// other string follows its header.
pub open spec fn string_item(bytes: Seq<u8>) -> Seq<u8> {
    if bytes.len() == 1 && bytes[0] < 0x80 {
        bytes
    } else {
        header(false, bytes.len()) + bytes
    }
}

/// The item for the unsigned integer `n`: the string of its big-endian bytes without
/// leading zeros.
pub open spec fn uint_item(n: nat) -> Seq<u8> {
    string_item(be_bytes(n))
}

/// The item for the list whose items, one after the other, are `payload`.
pub open spec fn list_item(payload: Seq<u8>) -> Seq<u8> {
    header(true, payload.len()) + payload
}

/// What the header at the start of some bytes says: whether the item is a list, and where
/// in the bytes its payload starts and how long it is.
pub ghost struct Head {
    pub list: bool,
    pub start: int,
    pub len: int,
}

/// The header that `input` starts with, if it starts with a canonical one whose payload
/// `input` holds in full.
pub open spec fn head(input: Seq<u8>) -> Option<Head> {
    if input.len() == 0 {
        None
    } else {
        let tag = input[0];
        if tag < 0x80 {
            Some(Head { list: false, start: 0, len: 1 })
        } else if tag < 0xB8 {
            let len = tag - 0x80;
            if len == 1 && (input.len() < 2 || input[1] < 0x80) {
                None
            } else if input.len() - 1 < len {
                None
            } else {
                Some(Head { list: false, start: 1, len })
            }
        } else if tag < 0xC0 {
            long_head(input, false, tag - 0xB7)
        } else if tag < 0xF8 {
            let len = tag - 0xC0;
            if input.len() - 1 < len {
                None
            } else {
                Some(Head { list: true, start: 1, len })
            }
        } else {
            long_head(input, true, tag - 0xF7)
        }
    }
}

/// The header of `input` where its first byte announces a length of `width` bytes: the
/// length has no leading zero byte and is at least 56.
pub open spec fn long_head(input: Seq<u8>, list: bool, width: int) -> Option<Head> {
    if input.len() - 1 < width {
        None
    } else {
        let digits = input.subrange(1, 1 + width);
        let len = be_value(digits);
        if digits[0] == 0 || len < 56 || input.len() - 1 - width < len {
            None
        } else {
            Some(Head { list, start: 1 + width, len: len as int })
        }
    }
}

/// The payload of the item that `input` starts with and the bytes after that item, if
/// `input` starts with an item that is a list or a string as `list` says.
pub open spec fn item(input: Seq<u8>, list: bool) -> Option<(Seq<u8>, Seq<u8>)> {
    match head(input) {
        Some(h) => if h.list == list {
            Some(
                (
                    input.subrange(h.start, h.start + h.len),
                    input.subrange(h.start + h.len, input.len() as int),
                ),
            )
        } else {
            None
        },
        None => None,
    }
}

/// The unsigned 64-bit integer that the payload of a string item denotes: at most 8
/// big-endian bytes, the first of them not 0.
pub open spec fn uint_of(payload: Seq<u8>) -> Option<nat> {
    if payload.len() > 8 || (payload.len() > 0 && payload[0] == 0) {
        None
    } else {
        Some(be_value(payload))
    }
}

/// The unsigned 64-bit integer that `input` starts with and the bytes after it.
pub open spec fn uint(input: Seq<u8>) -> Option<(nat, Seq<u8>)> {
    match item(input, false) {
        Some((payload, rest)) => match uint_of(payload) {
            Some(n) => Some((n, rest)),
            None => None,
        },
        None => None,
    }
}

/// Why some bytes are not a packet.
#[derive(Clone, Copy, Debug, PartialEq, Eq, Structural)]
pub enum DecodeError {
    /// The bytes end before the packet header does.
    TooShort,
    /// The packet type is neither that of a Ping nor that of a Pong.
    UnknownType,
    /// The payload is not the encoding of a value of its type.
    Malformed,
}

/// The decoding error of `alloy_rlp`.
#[verifier::external_type_specification]
#[verifier::external_body]
pub struct ExRlpError(alloy_rlp::Error);

/// `alloy_rlp::Header::decode_bytes`: reads the header at the start of `input` and hands
/// out the payload and the bytes after it. It fails unless `input` starts with a canonical
/// header of the kind asked for whose payload `input` holds in full.
#[verifier::external_body]
pub(crate) fn take_item<'a>(input: &'a [u8], list: bool) -> (r: Result<
    (&'a [u8], &'a [u8]),
    alloy_rlp::Error,
>)
    ensures
        match r {
            Ok((payload, rest)) => item(input@, list) == Some((payload@, rest@)),
            Err(_) => item(input@, list) is None,
        },
{
    let mut buf = input;
    let payload = alloy_rlp::Header::decode_bytes(&mut buf, list)?;
    Ok((payload, buf))
}

/// `<u64 as alloy_rlp::Decodable>::decode`: reads a string item of at most 8 bytes
/// without a leading zero and hands out the number it denotes and the bytes after it.
#[verifier::external_body]
pub(crate) fn take_uint<'a>(input: &'a [u8]) -> (r: Result<(u64, &'a [u8]), alloy_rlp::Error>)
    ensures
        match r {
            Ok((n, rest)) => uint(input@) == Some((n as nat, rest@)),
            Err(_) => uint(input@) is None,
        },
{
    let mut buf = input;
    let n = <u64 as alloy_rlp::Decodable>::decode(&mut buf)?;
    Ok((n, buf))
}

/// `<u64 as alloy_rlp::Encodable>::encode`: appends the item for the integer `n`.
#[verifier::external_body]
pub(crate) fn put_uint(n: u64, out: &mut Vec<u8>)
    ensures
        final(out)@ == old(out)@ + uint_item(n as nat),
{
    alloy_rlp::Encodable::encode(&n, out)
}

/// `<[u8] as alloy_rlp::Encodable>::encode`: appends the item for the string `bytes`.
#[verifier::external_body]
pub(crate) fn put_string(bytes: &[u8], out: &mut Vec<u8>)
    ensures
        final(out)@ == old(out)@ + string_item(bytes@),
{
    alloy_rlp::Encodable::encode(bytes, out)
}

/// `alloy_rlp::Header::encode` for a list: appends the header of a list with a payload of
/// `len` bytes.
#[verifier::external_body]
pub(crate) fn put_list_header(len: usize, out: &mut Vec<u8>)
    ensures
        final(out)@ == old(out)@ + header(true, len as nat),
{
    alloy_rlp::Header { list: true, payload_length: len }.encode(out)
}

/// Appends the bytes of `bytes` to `out`.
pub fn put_bytes(bytes: &[u8], out: &mut Vec<u8>)
    ensures
        final(out)@ == old(out)@ + bytes@,
{
    let mut i: usize = 0;
    while i < bytes.len()
        invariant
            i <= bytes@.len(),
            out@ == old(out)@ + bytes@.subrange(0, i as int),
        decreases bytes@.len() - i,
    {
        out.push(bytes[i]);
        i += 1;
        assert(out@ =~= old(out)@ + bytes@.subrange(0, i as int));
    }
    assert(bytes@.subrange(0, i as int) =~= bytes@);
}

/// Appends the list whose items, one after the other, are `payload`.
pub fn put_list(payload: &[u8], out: &mut Vec<u8>)
    ensures
        final(out)@ == old(out)@ + list_item(payload@),
{
    put_list_header(payload.len(), out);
    put_bytes(payload, out);
    assert(out@ =~= old(out)@ + list_item(payload@));
}

/// The big-endian bytes of a number denote that number.
pub proof fn lemma_be_bytes_value(n: nat)
    ensures
        be_value(be_bytes(n)) == n,
    decreases n,
{
    if n > 0 {
        lemma_be_bytes_value(n / 256);
        let s = be_bytes(n);
        assert(s.drop_last() =~= be_bytes(n / 256));
        assert(s.last() == (n % 256) as u8);
    }
}

/// A number under 256 to the power of `width` has at most `width` big-endian bytes.
pub proof fn lemma_be_bytes_len(n: nat, width: nat)
    requires
        n < pow2(8 * width),
    ensures
        be_bytes(n).len() <= width,
    decreases width,
{
    lemma2_to64();
    if n > 0 {
        if width == 0 {
            assert(pow2(0) == 1);
        } else {
            lemma_pow2_adds(8 * (width - 1) as nat, 8);
            assert(8 * (width - 1) + 8 == 8 * width);
            assert(n / 256 < pow2(8 * (width - 1) as nat)) by (nonlinear_arith)
                requires
                    n < pow2(8 * (width - 1) as nat) * 256,
            ;
            lemma_be_bytes_len(n / 256, (width - 1) as nat);
        }
    }
}

/// The big-endian bytes of a positive number start with a byte that is not 0.
pub proof fn lemma_be_bytes_leading(n: nat)
    requires
        n > 0,
    ensures
        be_bytes(n).len() > 0,
        be_bytes(n)[0] != 0,
    decreases n,
{
    if n / 256 > 0 {
        lemma_be_bytes_leading(n / 256);
        assert(be_bytes(n)[0] == be_bytes(n / 256)[0]);
    } else {
        assert(be_bytes(n / 256) =~= Seq::<u8>::empty());
        assert(be_bytes(n) =~= seq![(n % 256) as u8]);
    }
}

/// A string of fewer than 256 bytes is read back from its item, whatever follows.
pub proof fn lemma_string_round_trip(bytes: Seq<u8>, rest: Seq<u8>)
    requires
        bytes.len() < 256,
    ensures
        item(string_item(bytes) + rest, false) == Some((bytes, rest)),
{
    let input = string_item(bytes) + rest;
    let len = bytes.len() as int;
    if len == 1 && bytes[0] < 0x80 {
        assert(input[0] == bytes[0]);
        assert(head(input) == Some(Head { list: false, start: 0, len: 1 }));
        assert(input.subrange(0, 1) =~= bytes);
        assert(input.subrange(1, input.len() as int) =~= rest);
    } else if len < 56 {
        assert(input[0] == (0x80 + len) as u8);
        if len == 1 {
            assert(input[1] == bytes[0]);
        }
        assert(head(input) == Some(Head { list: false, start: 1, len }));
        assert(input.subrange(1, 1 + len) =~= bytes);
        assert(input.subrange(1 + len, input.len() as int) =~= rest);
    } else {
        assert(be_bytes(bytes.len() / 256) =~= Seq::<u8>::empty());
        assert(be_bytes(bytes.len()) =~= seq![len as u8]);
        assert(input[0] == 0xB8);
        assert(input[1] == len as u8);
        let digits = input.subrange(1, 2);
        assert(digits =~= seq![len as u8]);
        assert(digits.drop_last() =~= Seq::<u8>::empty());
        assert(be_value(digits) == len) by {
            reveal_with_fuel(be_value, 2);
        }
        assert(long_head(input, false, 1) == Some(Head { list: false, start: 2, len }));
        assert(input.subrange(2, 2 + len) =~= bytes);
        assert(input.subrange(2 + len, input.len() as int) =~= rest);
    }
}

/// A list with a payload of fewer than 256 bytes is read back from its item, whatever
/// follows.
pub proof fn lemma_list_round_trip(payload: Seq<u8>, rest: Seq<u8>)
    requires
        payload.len() < 256,
    ensures
        item(list_item(payload) + rest, true) == Some((payload, rest)),
{
    let input = list_item(payload) + rest;
    let len = payload.len() as int;
    if len < 56 {
        assert(input[0] == (0xC0 + len) as u8);
        let h = head(input)->0;
        assert(h == Head { list: true, start: 1, len: len as int });
        assert(input.subrange(1, 1 + len) =~= payload);
        assert(input.subrange(1 + len, input.len() as int) =~= rest);
    } else {
        assert(be_bytes(payload.len() / 256) =~= Seq::<u8>::empty());
        assert(be_bytes(payload.len()) =~= seq![len as u8]);
        assert(input[0] == 0xF8);
        assert(input[1] == len as u8);
        let digits = input.subrange(1, 2);
        assert(digits =~= seq![len as u8]);
        assert(digits.drop_last() =~= Seq::<u8>::empty());
        assert(be_value(digits) == len) by {
            reveal_with_fuel(be_value, 2);
        }
        assert(long_head(input, true, 1) == Some(Head { list: true, start: 2, len: len as int }));
        assert(input.subrange(2, 2 + len) =~= payload);
        assert(input.subrange(2 + len, input.len() as int) =~= rest);
    }
}

/// An unsigned 64-bit integer is read back from its item, whatever follows.
pub proof fn lemma_uint_round_trip(n: u64, rest: Seq<u8>)
    ensures
        uint(uint_item(n as nat) + rest) == Some((n as nat, rest)),
{
    lemma2_to64();
    lemma_be_bytes_len(n as nat, 8);
    lemma_be_bytes_value(n as nat);
    if n > 0 {
        lemma_be_bytes_leading(n as nat);
    }
    lemma_string_round_trip(be_bytes(n as nat), rest);
}

/// The item of an unsigned 64-bit integer has between 1 and 9 bytes, and the first is 0x80
/// only for 0.
pub proof fn lemma_uint_item_shape(n: u64)
    ensures
        1 <= uint_item(n as nat).len() <= 9,
        n != 0 ==> uint_item(n as nat)[0] != 0x80,
{
    lemma2_to64();
    lemma_be_bytes_len(n as nat, 8);
    if n > 0 {
        lemma_be_bytes_leading(n as nat);
        let digits = be_bytes(n as nat);
        if digits.len() == 1 && digits[0] < 0x80 {
        } else {
            assert(uint_item(n as nat)[0] == (0x80 + digits.len()) as u8);
        }
    } else {
        assert(be_bytes(0) =~= Seq::<u8>::empty());
    }
}

/// The item of an integer that fits in `width` bytes, at most 8, has at most `width + 1` bytes.
pub proof fn lemma_uint_item_len(n: nat, width: nat)
    requires
        n < pow2(8 * width),
        width <= 8,
    ensures
        1 <= uint_item(n).len() <= width + 1,
{
    lemma_be_bytes_len(n, width);
}

/// The item of a string of fewer than 256 bytes has at most two bytes more than the string,
/// and at most one more where the string has fewer than 56 bytes.
pub proof fn lemma_string_item_len(bytes: Seq<u8>)
    requires
        bytes.len() < 256,
    ensures
        string_item(bytes).len() <= bytes.len() + 2,
        bytes.len() < 56 ==> string_item(bytes).len() <= bytes.len() + 1,
{
    if bytes.len() >= 56 {
        assert(be_bytes(bytes.len() / 256) =~= Seq::<u8>::empty());
        assert(be_bytes(bytes.len()) =~= seq![bytes.len() as u8]);
    }
}

/// The item of a list with a payload of fewer than 256 bytes has at most two bytes more than
/// the payload.
pub proof fn lemma_list_item_len(payload: Seq<u8>)
    requires
        payload.len() < 256,
    ensures
        list_item(payload).len() <= payload.len() + 2,
{
    if payload.len() >= 56 {
        assert(be_bytes(payload.len() / 256) =~= Seq::<u8>::empty());
        assert(be_bytes(payload.len()) =~= seq![payload.len() as u8]);
    }
}

} // verus!
