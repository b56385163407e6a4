//! Fixed-width byte values: node identifiers, hashes and signatures.
use vstd::prelude::*;

verus! {

/// Whether two byte strings hold the same bytes.
pub fn bytes_equal(a: &[u8], b: &[u8]) -> (same: bool)
    ensures
        same == (a@ == b@),
{
    if a.len() != b.len() {
        return false;
    }
    let mut i: usize = 0;
    while i < a.len()
        invariant
            a.len() == b.len(),
            i <= a.len(),
            forall|k: int| 0 <= k < i ==> a@[k] == b@[k],
        decreases a.len() - i,
    {
        if a[i] != b[i] {
            return false;
        }
        i += 1;
    }
    assert(a@ =~= b@);
    true
}

/// A 512-bit node identifier, derived from the node's public key.
#[derive(Clone, Copy, Debug, PartialEq, Eq, Hash)]
pub struct NodeId {
    pub bytes: [u8; 64],
}

impl View for NodeId {
    type V = Seq<u8>;

    open spec fn view(&self) -> Seq<u8> {
        self.bytes@
    }
}

impl NodeId {
    /// The identifier with the bytes `bytes`.
    pub fn new(bytes: [u8; 64]) -> (id: NodeId)
        ensures
            id.bytes == bytes,
    {
        NodeId { bytes }
    }

    /// Whether `self` and `other` are the same identifier.
    pub fn same_as(&self, other: &NodeId) -> (same: bool)
        ensures
            same == (self@ == other@),
            same == (*self == *other),
    {
        let same = bytes_equal(&self.bytes, &other.bytes);
        proof {
            if same {
                assert(self.bytes =~= other.bytes);
            }
        }
        same
    }
}

/// A 256-bit Keccak hash.
#[derive(Clone, Copy, Debug, PartialEq, Eq, Hash)]
pub struct Hash256 {
    pub bytes: [u8; 32],
}

impl View for Hash256 {
    type V = Seq<u8>;

    open spec fn view(&self) -> Seq<u8> {
        self.bytes@
    }
}

impl Hash256 {
    /// The hash with the bytes `bytes`.
    pub fn new(bytes: [u8; 32]) -> (hash: Hash256)
        ensures
            hash.bytes == bytes,
    {
        Hash256 { bytes }
    }

    /// Whether `self` and `other` are the same hash.
    pub fn same_as(&self, other: &Hash256) -> (same: bool)
        ensures
            same == (self@ == other@),
            same == (*self == *other),
    {
        let same = bytes_equal(&self.bytes, &other.bytes);
        proof {
            if same {
                assert(self.bytes =~= other.bytes);
            }
        }
        same
    }
}

/// A 520-bit recoverable signature.
#[derive(Clone, Copy, Debug, PartialEq, Eq, Hash)]
pub struct Signature {
    pub bytes: [u8; 65],
}

impl View for Signature {
    type V = Seq<u8>;

    open spec fn view(&self) -> Seq<u8> {
        self.bytes@
    }
}

impl Signature {
    /// The signature with the bytes `bytes`.
    pub fn new(bytes: [u8; 65]) -> (signature: Signature)
        ensures
            signature.bytes == bytes,
    {
        Signature { bytes }
    }

    /// Whether `self` and `other` are the same signature.
    pub fn same_as(&self, other: &Signature) -> (same: bool)
        ensures
            same == (self@ == other@),
            same == (*self == *other),
    {
        let same = bytes_equal(&self.bytes, &other.bytes);
        proof {
            if same {
                assert(self.bytes =~= other.bytes);
            }
        }
        same
    }
}

/// The 4 bytes of `bytes` as an array.
pub fn array4(bytes: &[u8]) -> (array: [u8; 4])
    requires
        bytes@.len() == 4,
    ensures
        array@ == bytes@,
{
    let mut array = [0u8; 4];
    let mut i: usize = 0;
    while i < 4
        invariant
            i <= 4,
            bytes@.len() == 4,
            forall|k: int| 0 <= k < i ==> array@[k] == bytes@[k],
        decreases 4 - i,
    {
        array[i] = bytes[i];
        i += 1;
    }
    assert(array@ =~= bytes@);
    array
}

/// The 16 bytes of `bytes` as an array.
pub fn array16(bytes: &[u8]) -> (array: [u8; 16])
    requires
        bytes@.len() == 16,
    ensures
        array@ == bytes@,
{
    let mut array = [0u8; 16];
    let mut i: usize = 0;
    while i < 16
        invariant
            i <= 16,
            bytes@.len() == 16,
            forall|k: int| 0 <= k < i ==> array@[k] == bytes@[k],
        decreases 16 - i,
    {
        array[i] = bytes[i];
        i += 1;
    }
    assert(array@ =~= bytes@);
    array
}

/// The 32 bytes of `bytes` as an array.
pub fn array32(bytes: &[u8]) -> (array: [u8; 32])
    requires
        bytes@.len() == 32,
    ensures
        array@ == bytes@,
{
    let mut array = [0u8; 32];
    let mut i: usize = 0;
    while i < 32
        invariant
            i <= 32,
            bytes@.len() == 32,
            forall|k: int| 0 <= k < i ==> array@[k] == bytes@[k],
        decreases 32 - i,
    {
        array[i] = bytes[i];
        i += 1;
    }
    assert(array@ =~= bytes@);
    array
}

/// The 65 bytes of `bytes` as an array.
pub fn array65(bytes: &[u8]) -> (array: [u8; 65])
    requires
        bytes@.len() == 65,
    ensures
        array@ == bytes@,
{
    let mut array = [0u8; 65];
    let mut i: usize = 0;
    while i < 65
        invariant
            i <= 65,
            bytes@.len() == 65,
            forall|k: int| 0 <= k < i ==> array@[k] == bytes@[k],
        decreases 65 - i,
    {
        array[i] = bytes[i];
        i += 1;
    }
    assert(array@ =~= bytes@);
    array
}

/// The 64 bytes of `bytes` as an array.
pub fn array64(bytes: &[u8]) -> (array: [u8; 64])
    requires
        bytes@.len() == 64,
    ensures
        array@ == bytes@,
{
    let mut array = [0u8; 64];
    let mut i: usize = 0;
    while i < 64
        invariant
            i <= 64,
            bytes@.len() == 64,
            forall|k: int| 0 <= k < i ==> array@[k] == bytes@[k],
        decreases 64 - i,
    {
        array[i] = bytes[i];
        i += 1;
    }
    assert(array@ =~= bytes@);
    array
}

} // verus!
