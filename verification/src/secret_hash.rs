//! A fixed-size byte container for secret material that can wipe its
//! contents from memory.

use vstd::prelude::*;

use zeroize::Zeroize;

verus! {

/// Length in bytes of the secret material held by a `SecretHash`.
pub const SECRET_KEY_BYTES_LEN: usize = 32;

/// A wrapper around secret key bytes. Unlike an ordinary byte array it can
/// be wiped in place, and its owner in unverified code wipes it on drop.
pub struct SecretHash {
    pub bytes: [u8; 32],
}

impl View for SecretHash {
    type V = Seq<u8>;

    open spec fn view(&self) -> Seq<u8> {
        self.bytes@
    }
}

/// Thirty-two zero bytes.
pub open spec fn zero_secret() -> Seq<u8> {
    Seq::new(32, |i: int| 0u8)
}

impl SecretHash {
    /// Instantiates `Self` with all zeros.
    pub fn zero() -> (r: Self)
        ensures
            r@ == zero_secret(),
    {
        let r = SecretHash { bytes: [0u8; 32] };
        proof {
            assert(r@ =~= zero_secret());
        }
        r
    }

    /// Returns a reference to the underlying bytes.
    pub fn as_bytes(&self) -> (r: &[u8])
        ensures
            r@ == self@,
    {
        self.bytes.as_slice()
    }

    /// Returns a mutable reference to the underlying bytes.
    pub fn as_mut_bytes(&mut self) -> (r: &mut [u8; 32])
        ensures
            r@ == old(self)@,
            final(self)@ == final(r)@,
    {
        &mut self.bytes
    }

    /// Wipe the secret from memory.
    ///
    /// Relies on `zeroize::Zeroize` for `[u8; N]`, which volatile-writes
    /// zero over every element and fences the writes against elision.
    #[verifier::external_body]
    pub fn zeroize(&mut self)
        ensures
            final(self)@ == zero_secret(),
    {
        self.bytes.zeroize();
    }
}

impl From<[u8; 32]> for SecretHash {
    /// Wrap an existing array of secret bytes.
    fn from(array: [u8; 32]) -> (r: Self)
        ensures
            r@ == array@,
    {
        SecretHash { bytes: array }
    }
}

impl vstd::std_specs::convert::FromSpecImpl<[u8; 32]> for SecretHash {
    open spec fn obeys_from_spec() -> bool {
        true
    }

    open spec fn from_spec(array: [u8; 32]) -> Self {
        SecretHash { bytes: array }
    }
}

} // verus!
