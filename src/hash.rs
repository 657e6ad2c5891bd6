//! Block hashes: 32-byte BLAKE2b digests of encoded headers.
use vstd::prelude::*;

verus! {

/// Length in bytes of a block hash.
pub const HASH_LEN: usize = 32;

/// The BLAKE2b digest with a 32-byte output of the given bytes.
pub uninterp spec fn blake2_256_of(b: Seq<u8>) -> Seq<u8>;

/// Relies on `blake2::Blake2b<U32>` (through `digest::Digest::digest`): the 32-byte
/// BLAKE2b digest of the input, which depends on the input bytes alone.
#[verifier::external_body]
fn blake2_256(data: &[u8]) -> (r: [u8; 32])
    ensures
        r@ == blake2_256_of(data@),
{
    <blake2::Blake2b<blake2::digest::consts::U32> as blake2::Digest>::digest(data).into()
}

/// The identity of a parachain block.
#[derive(Clone, Copy, Debug)]
pub struct BlockHash {
    pub bytes: [u8; 32],
}

impl View for BlockHash {
    type V = Seq<u8>;

    open spec fn view(&self) -> Seq<u8> {
        self.bytes@
    }
}

impl BlockHash {
    /// The hash whose bytes are `bytes`.
    pub fn from_bytes(bytes: [u8; 32]) -> (r: BlockHash)
        ensures
            r@ == bytes@,
    {
        BlockHash { bytes }
    }

    /// The hash of the encoded header `encoded`: its 32-byte BLAKE2b digest.
    pub fn of_encoded(encoded: &[u8]) -> (r: BlockHash)
        ensures
            r@ == blake2_256_of(encoded@),
    {
        BlockHash { bytes: blake2_256(encoded) }
    }

    /// Whether two hashes hold the same bytes.
    pub fn same_as(&self, other: &BlockHash) -> (r: bool)
        ensures
            r == (self@ == other@),
            r == (*self == *other),
    {
        let mut i: usize = 0;
        while i < HASH_LEN
            invariant
                i <= HASH_LEN,
                self@.len() == HASH_LEN,
                other@.len() == HASH_LEN,
                self@.subrange(0, i as int) == other@.subrange(0, i as int),
            decreases HASH_LEN - i,
        {
            if self.bytes[i] != other.bytes[i] {
                assert(self@[i as int] != other@[i as int]);
                return false;
            }
            assert(self@.subrange(0, i + 1) =~= self@.subrange(0, i as int).push(self@[i as int]));
            assert(other@.subrange(0, i + 1) =~= other@.subrange(0, i as int).push(other@[i as int]));
            i += 1;
        }
        assert(self@ =~= self@.subrange(0, 32));
        assert(other@ =~= other@.subrange(0, 32));
        assert(self.bytes =~= other.bytes) by {
            assert forall|j: int| 0 <= j < 32 implies self.bytes[j] == other.bytes[j] by {
                assert(self@[j] == other@[j]);
            }
        }
        true
    }
}

impl PartialEq for BlockHash {
    fn eq(&self, other: &BlockHash) -> (r: bool) {
        self.same_as(other)
    }
}

impl vstd::std_specs::cmp::PartialEqSpecImpl for BlockHash {
    open spec fn obeys_eq_spec() -> bool {
        true
    }

    open spec fn eq_spec(&self, other: &BlockHash) -> bool {
        self@ == other@
    }
}

impl Eq for BlockHash {
}

} // verus!
