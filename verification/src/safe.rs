//! The verdicts of the safety checker.

use vstd::prelude::*;

use crate::pubkey::PublicKey;
use crate::signed_attestation::{InvAttV, InvalidAttestation};
use crate::signed_block::{InvBlockV, InvalidBlock};

verus! {

/// A message that is safe to sign.
#[derive(Clone, Copy, Debug, PartialEq, Eq)]
pub enum Safe {
    /// Nothing conflicting is on record; the message will be recorded.
    Valid,
    /// The identical message is already on record; signing it again is a
    /// harmless replay and nothing new is recorded.
    SameData,
}

/// A message that must not be signed, or a failure that prevents the store
/// from confirming safety.
#[derive(Clone, Debug, PartialEq, Eq)]
pub enum NotSafe {
    /// The public key has never been registered with this store.
    UnregisteredValidator(PublicKey),
    InvalidBlock(InvalidBlock),
    InvalidAttestation(InvalidAttestation),
    /// The storage layer failed; safety could not be confirmed.
    SQLError(String),
}

/// Mathematical model of a `NotSafe` verdict. Storage failures carry no
/// model beyond their occurrence.
#[verifier::ext_equal]
pub ghost enum NotSafeV {
    Unregistered(Seq<u8>),
    Block(InvBlockV),
    Att(InvAttV),
    Storage,
}

impl View for NotSafe {
    type V = NotSafeV;

    open spec fn view(&self) -> NotSafeV {
        match self {
            NotSafe::UnregisteredValidator(pk) => NotSafeV::Unregistered(pk@),
            NotSafe::InvalidBlock(b) => NotSafeV::Block(b@),
            NotSafe::InvalidAttestation(a) => NotSafeV::Att(a@),
            NotSafe::SQLError(_) => NotSafeV::Storage,
        }
    }
}

} // verus!
