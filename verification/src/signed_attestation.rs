//! Signed attestations and the ways a new attestation can be invalid.

use vstd::prelude::*;

use crate::hash256::Hash256;

verus! {

/// A recorded attestation: its source and target epochs and the root that
/// was signed.
#[derive(Clone, Copy, Debug, PartialEq, Eq)]
pub struct SignedAttestation {
    pub source_epoch: u64,
    pub target_epoch: u64,
    pub signing_root: Hash256,
}

/// Mathematical model of a recorded attestation.
#[verifier::ext_equal]
pub ghost struct AttV {
    pub source: int,
    pub target: int,
    pub root: Seq<u8>,
}

impl View for SignedAttestation {
    type V = AttV;

    open spec fn view(&self) -> AttV {
        AttV {
            source: self.source_epoch as int,
            target: self.target_epoch as int,
            root: self.signing_root@,
        }
    }
}

impl SignedAttestation {
    pub fn new(source_epoch: u64, target_epoch: u64, signing_root: Hash256) -> (r: Self)
        ensures
            r@ == (AttV {
                source: source_epoch as int,
                target: target_epoch as int,
                root: signing_root@,
            }),
    {
        SignedAttestation { source_epoch, target_epoch, signing_root }
    }
}

/// `a` surrounds `b`: `a` opens strictly earlier and closes strictly later.
pub open spec fn surrounds(a: AttV, b: AttV) -> bool {
    a.source < b.source && b.target < a.target
}

/// Why an attestation must not be signed.
#[derive(Clone, Debug, PartialEq, Eq)]
pub enum InvalidAttestation {
    /// The source epoch exceeds the target epoch.
    SourceExceedsTarget,
    /// The source epoch is below the validator's lower bound on sources.
    SourceLessThanLowerBound { source_epoch: u64, bound_epoch: u64 },
    /// The target epoch does not exceed the validator's lower bound on targets.
    TargetLessThanOrEqLowerBound { target_epoch: u64, bound_epoch: u64 },
    /// An attestation with the same target was already signed with a
    /// different root.
    DoubleVote(SignedAttestation),
    /// A previously signed attestation surrounds the new one.
    PrevSurroundsNew { prev: SignedAttestation },
    /// The new attestation surrounds a previously signed one.
    NewSurroundsPrev { prev: SignedAttestation },
}

/// Mathematical model of an invalid-attestation verdict.
#[verifier::ext_equal]
pub ghost enum InvAttV {
    SourceExceedsTarget,
    SourceLessThanLowerBound { source_epoch: int, bound_epoch: int },
    TargetLessThanOrEqLowerBound { target_epoch: int, bound_epoch: int },
    DoubleVote(AttV),
    PrevSurroundsNew(AttV),
    NewSurroundsPrev(AttV),
}

impl View for InvalidAttestation {
    type V = InvAttV;

    open spec fn view(&self) -> InvAttV {
        match self {
            InvalidAttestation::SourceExceedsTarget => InvAttV::SourceExceedsTarget,
            InvalidAttestation::SourceLessThanLowerBound { source_epoch, bound_epoch } => (
            InvAttV::SourceLessThanLowerBound {
                source_epoch: *source_epoch as int,
                bound_epoch: *bound_epoch as int,
            }),
            InvalidAttestation::TargetLessThanOrEqLowerBound { target_epoch, bound_epoch } => (
            InvAttV::TargetLessThanOrEqLowerBound {
                target_epoch: *target_epoch as int,
                bound_epoch: *bound_epoch as int,
            }),
            InvalidAttestation::DoubleVote(a) => InvAttV::DoubleVote(a@),
            InvalidAttestation::PrevSurroundsNew { prev } => InvAttV::PrevSurroundsNew(prev@),
            InvalidAttestation::NewSurroundsPrev { prev } => InvAttV::NewSurroundsPrev(prev@),
        }
    }
}

} // verus!
