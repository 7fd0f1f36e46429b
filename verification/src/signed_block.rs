//! Signed block proposals and the ways a new proposal can be invalid.

use vstd::prelude::*;

use crate::hash256::Hash256;

verus! {

/// A recorded block proposal: the slot it was proposed at and the root that
/// was signed.
#[derive(Clone, Copy, Debug, PartialEq, Eq)]
pub struct SignedBlock {
    pub slot: u64,
    pub signing_root: Hash256,
}

/// Mathematical model of a recorded block proposal.
#[verifier::ext_equal]
pub ghost struct BlockV {
    pub slot: int,
    pub root: Seq<u8>,
}

impl View for SignedBlock {
    type V = BlockV;

    open spec fn view(&self) -> BlockV {
        BlockV { slot: self.slot as int, root: self.signing_root@ }
    }
}

impl SignedBlock {
    pub fn new(slot: u64, signing_root: Hash256) -> (r: Self)
        ensures
            r@ == (BlockV { slot: slot as int, root: signing_root@ }),
    {
        SignedBlock { slot, signing_root }
    }
}

/// Why a block proposal must not be signed.
#[derive(Clone, Debug, PartialEq, Eq)]
pub enum InvalidBlock {
    /// The slot does not exceed the validator's lower bound on block slots.
    SlotViolatesLowerBound { block_slot: u64, bound_slot: u64 },
    /// A block at the same slot was already signed with a different root.
    DoubleBlockProposal(SignedBlock),
}

/// Mathematical model of an invalid-block verdict.
#[verifier::ext_equal]
pub ghost enum InvBlockV {
    SlotViolatesLowerBound { block_slot: int, bound_slot: int },
    DoubleBlockProposal(BlockV),
}

impl View for InvalidBlock {
    type V = InvBlockV;

    open spec fn view(&self) -> InvBlockV {
        match self {
            InvalidBlock::SlotViolatesLowerBound { block_slot, bound_slot } => (
            InvBlockV::SlotViolatesLowerBound {
                block_slot: *block_slot as int,
                bound_slot: *bound_slot as int,
            }),
            InvalidBlock::DoubleBlockProposal(b) => InvBlockV::DoubleBlockProposal(b@),
        }
    }
}

} // verus!
