//! The 32-byte hash type used for signing roots and the genesis validators root.

use vstd::prelude::*;

verus! {

/// The all-zero hash, standing in for an absent signing root.
pub open spec fn zero_hash() -> Seq<u8> {
    Seq::new(32, |i: int| 0u8)
}

/// A 32-byte hash: the signing root of a block or attestation, or the
/// genesis validators root that identifies a chain.
#[derive(Clone, Copy, Debug, PartialEq, Eq)]
pub struct Hash256 {
    pub bytes: [u8; 32],
}

impl View for Hash256 {
    type V = Seq<u8>;

    open spec fn view(&self) -> Seq<u8> {
        self.bytes@
    }
}

impl Hash256 {
    /// The all-zero hash.
    pub fn zero() -> (r: Self)
        ensures
            r@ == zero_hash(),
    {
        let r = Hash256 { bytes: [0u8; 32] };
        proof {
            assert(r@ =~= zero_hash());
        }
        r
    }

    /// Wrap raw bytes as a hash.
    pub fn from_bytes(bytes: [u8; 32]) -> (r: Self)
        ensures
            r@ == bytes@,
    {
        Hash256 { bytes }
    }

    /// Byte-for-byte equality of two hashes.
    pub fn eq_bytes(&self, other: &Hash256) -> (r: bool)
        ensures
            r == (self@ == other@),
    {
        let mut i: usize = 0;
        while i < 32
            invariant
                0 <= i <= 32,
                forall|j: int| 0 <= j < i ==> self.bytes@[j] == other.bytes@[j],
            decreases 32 - i,
        {
            if self.bytes[i] != other.bytes[i] {
                return false;
            }
            i += 1;
        }
        proof {
            assert(self@ =~= other@);
        }
        true
    }
}

} // verus!
