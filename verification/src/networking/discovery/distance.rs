//! The XOR-hash distance between two node identifiers.
use super::identity::NodeId;
use vstd::arithmetic::power2::{lemma2_to64, lemma_pow2_adds, pow2};
use vstd::prelude::*;

verus! {

/// The Keccak-256 digest of a byte string: 32 bytes.
pub uninterp spec fn keccak256_digest(data: Seq<u8>) -> Seq<u8>;

/// The bytewise exclusive or of two 32-byte digests.
pub open spec fn xor_digests(a: Seq<u8>, b: Seq<u8>) -> Seq<u8> {
    Seq::new(32, |i: int| a[i] ^ b[i])
}

/// The number that a byte string denotes when read as a big-endian unsigned integer.
pub open spec fn be_value(bytes: Seq<u8>) -> nat
    decreases bytes.len(),
{
    if bytes.len() == 0 {
        0
    } else {
        be_value(bytes.drop_last()) * 256 + bytes.last() as nat
    }
}

/// The least number of bits needed to write `n` in binary; 0 for 0.
pub open spec fn bit_length(n: nat) -> nat
    decreases n,
{
    if n == 0 {
        0
    } else {
        1 + bit_length(n / 2)
    }
}

/// The distance between the identifiers `a` and `b`: the bit length of the exclusive or of
/// their Keccak-256 digests, read as a 256-bit big-endian integer.
pub open spec fn distance(a: NodeId, b: NodeId) -> nat {
    bit_length(be_value(xor_digests(keccak256_digest(a@), keccak256_digest(b@))))
}

/// `alloy_primitives::keccak256`: the Keccak-256 digest of `data`. The digest is a function
/// of the bytes alone, named `keccak256_digest`; nothing else is claimed of it.
#[verifier::external_body]
pub(crate) fn keccak256(data: &[u8]) -> (digest: [u8; 32])
    ensures
        digest@ == keccak256_digest(data@),
{
    alloy_primitives::keccak256(data).0
}

/// The `^` of `alloy_primitives::B256`: byte `i` of the result is the exclusive or of byte
/// `i` of the two operands.
#[verifier::external_body]
fn xor_hashes(a: &[u8; 32], b: &[u8; 32]) -> (x: [u8; 32])
    ensures
        x@ == xor_digests(a@, b@),
{
    (alloy_primitives::B256::new(*a) ^ alloy_primitives::B256::new(*b)).0
}

/// `ethereum_types::U256::from_big_endian` followed by `U256::bits`: the least number of
/// bits needed to represent the 256-bit number whose big-endian bytes are `bytes`.
#[verifier::external_body]
fn u256_bits(bytes: &[u8; 32]) -> (bits: usize)
    ensures
        bits == bit_length(be_value(bytes@)),
{
    ethereum_types::U256::from_big_endian(bytes).bits()
}

proof fn lemma_be_value_bound(bytes: Seq<u8>)
    ensures
        be_value(bytes) < pow2(8 * bytes.len()),
    decreases bytes.len(),
{
    lemma2_to64();
    if bytes.len() > 0 {
        let init = bytes.drop_last();
        lemma_be_value_bound(init);
        lemma_pow2_adds(8 * init.len(), 8);
        assert(8 * init.len() + 8 == 8 * bytes.len());
        assert(be_value(init) * 256 + 256 <= pow2(8 * init.len()) * 256) by (nonlinear_arith)
            requires
                be_value(init) < pow2(8 * init.len()),
        ;
    }
}

proof fn lemma_bit_length_bound(n: nat, k: nat)
    requires
        n < pow2(k),
    ensures
        bit_length(n) <= k,
    decreases k,
{
    lemma2_to64();
    if n > 0 {
        if k == 0 {
            assert(pow2(0) == 1);
        } else {
            lemma_pow2_adds((k - 1) as nat, 1);
            assert(pow2(k) == pow2((k - 1) as nat) * 2);
            lemma_bit_length_bound(n / 2, (k - 1) as nat);
        }
    }
}

proof fn lemma_be_value_zero(bytes: Seq<u8>)
    ensures
        be_value(bytes) == 0 <==> forall|i: int| 0 <= i < bytes.len() ==> bytes[i] == 0,
    decreases bytes.len(),
{
    if bytes.len() > 0 {
        let init = bytes.drop_last();
        lemma_be_value_zero(init);
        if be_value(bytes) == 0 {
            assert(be_value(init) == 0 && bytes.last() == 0) by (nonlinear_arith)
                requires
                    be_value(init) * 256 + bytes.last() as nat == 0,
            ;
            assert forall|i: int| 0 <= i < bytes.len() implies bytes[i] == 0 by {
                if i < init.len() {
                    assert(init[i] == bytes[i]);
                }
            }
        }
        if forall|i: int| 0 <= i < bytes.len() ==> bytes[i] == 0 {
            assert forall|i: int| 0 <= i < init.len() implies init[i] == 0 by {
                assert(init[i] == bytes[i]);
            }
            assert(bytes.last() == bytes[bytes.len() - 1]);
        }
    }
}

/// The distance does not depend on the order of its arguments.
pub proof fn lemma_distance_symmetric(a: NodeId, b: NodeId)
    ensures
        distance(a, b) == distance(b, a),
{
    let ha = keccak256_digest(a@);
    let hb = keccak256_digest(b@);
    assert forall|i: int| 0 <= i < 32 implies #[trigger] xor_digests(ha, hb)[i] == xor_digests(
        hb,
        ha,
    )[i] by {
        let x = ha[i];
        let y = hb[i];
        assert(x ^ y == y ^ x) by (bit_vector);
    }
    assert(xor_digests(ha, hb) =~= xor_digests(hb, ha));
}

/// An identifier is at distance 0 from itself.
pub proof fn lemma_distance_identity(a: NodeId)
    ensures
        distance(a, a) == 0,
{
    lemma_distance_zero(a, a);
}

/// The distance is 0 exactly when the two identifiers have the same digest in each of the 32
/// byte positions.
pub proof fn lemma_distance_zero(a: NodeId, b: NodeId)
    ensures
        distance(a, b) == 0 <==> forall|i: int|
            0 <= i < 32 ==> keccak256_digest(a@)[i] == keccak256_digest(b@)[i],
{
    let ha = keccak256_digest(a@);
    let hb = keccak256_digest(b@);
    let x = xor_digests(ha, hb);
    lemma_be_value_zero(x);
    assert forall|i: int| 0 <= i < 32 implies (x[i] == 0 <==> ha[i] == hb[i]) by {
        let p = ha[i];
        let q = hb[i];
        assert((p ^ q == 0) <==> p == q) by (bit_vector);
    }
    assert(bit_length(be_value(x)) == 0 <==> be_value(x) == 0);
}

/// The distance is at most 256.
pub proof fn lemma_distance_bounded(a: NodeId, b: NodeId)
    ensures
        distance(a, b) <= 256,
{
    let x = xor_digests(keccak256_digest(a@), keccak256_digest(b@));
    lemma_be_value_bound(x);
    lemma_bit_length_bound(be_value(x), 256);
}

/// Computes the distance between two nodes from their identifiers: the bit length of the
/// exclusive or of the Keccak-256 hashes of the two identifiers.
pub fn calculate_distance(node_a_id: NodeId, node_b_id: NodeId) -> (d: usize)
    ensures
        d == distance(node_a_id, node_b_id),
        d <= 256,
{
    let node_a_hash = keccak256(&node_a_id.bytes);
    let node_b_hash = keccak256(&node_b_id.bytes);
    let xored = xor_hashes(&node_a_hash, &node_b_hash);
    proof {
        lemma_distance_bounded(node_a_id, node_b_id);
    }
    u256_bits(&xored)
}

} // verus!
