//! Per-validator lower bounds below which no new signature may be issued.

use vstd::prelude::*;

verus! {

/// A validator's lower bound. Each field is independent and optional:
/// no block at a slot `<=` the slot bound, no attestation with a source
/// `<` the source bound or a target `<=` the target bound.
#[derive(Clone, Copy, Debug, PartialEq, Eq)]
pub struct LowerBound {
    pub block_proposal_slot: Option<u64>,
    pub attestation_source_epoch: Option<u64>,
    pub attestation_target_epoch: Option<u64>,
}

/// Mathematical model of a lower bound.
#[verifier::ext_equal]
pub ghost struct BoundV {
    pub block_slot: Option<int>,
    pub source: Option<int>,
    pub target: Option<int>,
}

impl View for LowerBound {
    type V = BoundV;

    open spec fn view(&self) -> BoundV {
        BoundV {
            block_slot: match self.block_proposal_slot {
                Some(s) => Some(s as int),
                None => None,
            },
            source: match self.attestation_source_epoch {
                Some(s) => Some(s as int),
                None => None,
            },
            target: match self.attestation_target_epoch {
                Some(t) => Some(t as int),
                None => None,
            },
        }
    }
}

/// The bound with every field absent.
pub open spec fn default_bound() -> BoundV {
    BoundV { block_slot: None, source: None, target: None }
}

/// The larger of two optional values; an absent value never wins.
pub open spec fn opt_max(a: Option<int>, b: Option<int>) -> Option<int> {
    match b {
        None => a,
        Some(y) => match a {
            None => Some(y),
            Some(x) => if x >= y {
                Some(x)
            } else {
                Some(y)
            },
        },
    }
}

/// Field-wise maximum of two bounds.
pub open spec fn bound_update(a: BoundV, b: BoundV) -> BoundV {
    BoundV {
        block_slot: opt_max(a.block_slot, b.block_slot),
        source: opt_max(a.source, b.source),
        target: opt_max(a.target, b.target),
    }
}

/// `a <= b` on optional values: an absent value is below everything.
pub open spec fn opt_leq(a: Option<int>, b: Option<int>) -> bool {
    match a {
        None => true,
        Some(x) => match b {
            Some(y) => x <= y,
            None => false,
        },
    }
}

/// Field-wise `<=` on bounds.
pub open spec fn bound_leq(a: BoundV, b: BoundV) -> bool {
    opt_leq(a.block_slot, b.block_slot) && opt_leq(a.source, b.source) && opt_leq(
        a.target,
        b.target,
    )
}

/// Updating a bound only raises it, and absorbs anything already below it.
pub proof fn lemma_bound_update(a: BoundV, b: BoundV)
    ensures
        bound_leq(a, bound_update(a, b)),
        bound_leq(b, bound_update(a, b)),
        bound_leq(b, a) ==> bound_update(a, b) == a,
        bound_update(a, b) == bound_update(b, a),
{
}

/// `bound_leq` is a partial order.
pub proof fn lemma_bound_leq_trans(a: BoundV, b: BoundV, c: BoundV)
    requires
        bound_leq(a, b),
        bound_leq(b, c),
    ensures
        bound_leq(a, c),
{
}

fn opt_max_u64(a: Option<u64>, b: Option<u64>) -> (r: Option<u64>)
    ensures
        match r {
            Some(x) => opt_max(opt_view(a), opt_view(b)) == Some(x as int),
            None => opt_max(opt_view(a), opt_view(b)) is None,
        },
{
    match b {
        None => a,
        Some(y) => match a {
            None => Some(y),
            Some(x) => if x >= y {
                Some(x)
            } else {
                Some(y)
            },
        },
    }
}

/// The model of an optional epoch or slot.
pub open spec fn opt_view(a: Option<u64>) -> Option<int> {
    match a {
        Some(x) => Some(x as int),
        None => None,
    }
}

impl Default for LowerBound {
    /// The bound with every field absent.
    fn default() -> (r: Self)
        ensures
            r@ == default_bound(),
    {
        LowerBound {
            block_proposal_slot: None,
            attestation_source_epoch: None,
            attestation_target_epoch: None,
        }
    }
}

impl LowerBound {
    /// Merge another bound into this one, field-wise taking the maximum.
    pub fn update(self, other: LowerBound) -> (r: LowerBound)
        ensures
            r@ == bound_update(self@, other@),
    {
        LowerBound {
            block_proposal_slot: opt_max_u64(self.block_proposal_slot, other.block_proposal_slot),
            attestation_source_epoch: opt_max_u64(
                self.attestation_source_epoch,
                other.attestation_source_epoch,
            ),
            attestation_target_epoch: opt_max_u64(
                self.attestation_target_epoch,
                other.attestation_target_epoch,
            ),
        }
    }
}

} // verus!
