//! The safety checker: pure decision functions over a validator's history,
//! and the check-then-insert operations built on them.

use vstd::prelude::*;

use crate::hash256::Hash256;
use crate::lower_bound::BoundV;
use crate::pubkey::PublicKey;
use crate::safe::{NotSafe, Safe};
use crate::signed_attestation::{AttV, InvAttV, InvalidAttestation, SignedAttestation};
use crate::signed_block::{BlockV, InvBlockV, InvalidBlock, SignedBlock};
use crate::store::{
    bounds_monotone, entry_inv, entry_of, has_validator, lemma_bounds_monotone_pointwise,
    lemma_validator_index_is, store_inv, validator_index, SlashingStore, StoreV, ValidatorV,
};

verus! {

/// The outcome of checking a block proposal against a store.
#[verifier::ext_equal]
pub ghost enum BlockDecision {
    Valid,
    SameData,
    Unregistered,
    Invalid(InvBlockV),
}

/// The outcome of checking an attestation against a store.
#[verifier::ext_equal]
pub ghost enum AttDecision {
    Valid,
    SameData,
    Unregistered,
    Invalid(InvAttV),
}

/// The recorded block at `slot`, if any.
pub open spec fn block_at_slot(bs: Seq<BlockV>, slot: int) -> Option<BlockV>
    decreases bs.len(),
{
    if bs.len() == 0 {
        None
    } else if bs.last().slot == slot {
        Some(bs.last())
    } else {
        block_at_slot(bs.drop_last(), slot)
    }
}

pub proof fn lemma_block_at_slot_props(bs: Seq<BlockV>, slot: int)
    ensures
        match block_at_slot(bs, slot) {
            Some(b) => b.slot == slot && exists|i: int| 0 <= i < bs.len() && bs[i] == b,
            None => forall|i: int| 0 <= i < bs.len() ==> (#[trigger] bs[i]).slot != slot,
        },
    decreases bs.len(),
{
    if bs.len() > 0 {
        lemma_block_at_slot_props(bs.drop_last(), slot);
        if bs.last().slot != slot {
            match block_at_slot(bs.drop_last(), slot) {
                Some(b) => {
                    let i = choose|i: int|
                        0 <= i < bs.drop_last().len() && bs.drop_last()[i] == b;
                    assert(bs[i] == b);
                },
                None => {
                    assert forall|i: int| 0 <= i < bs.len() implies (#[trigger] bs[i]).slot
                        != slot by {
                        if i < bs.len() - 1 {
                            assert(bs.drop_last()[i] == bs[i]);
                        }
                    }
                },
            }
        }
    }
}

/// Under slot uniqueness, any matching index determines the lookup.
pub proof fn lemma_block_at_slot_unique(bs: Seq<BlockV>, slot: int, i: int)
    requires
        crate::store::blocks_unique_slots(bs),
        0 <= i < bs.len(),
        bs[i].slot == slot,
    ensures
        block_at_slot(bs, slot) == Some(bs[i]),
    decreases bs.len(),
{
    if i == bs.len() - 1 {
        assert(bs.last() == bs[i]);
    } else {
        assert(bs.last() == bs[bs.len() - 1]);
        assert(bs[bs.len() - 1].slot != slot) by {
            if bs[bs.len() - 1].slot == slot {
                assert(bs[bs.len() - 1].slot == bs[i].slot);
            }
        }
        assert(crate::store::blocks_unique_slots(bs.drop_last())) by {
            assert forall|x: int, y: int|
                0 <= x < bs.drop_last().len() && 0 <= y < bs.drop_last().len()
                    && (#[trigger] bs.drop_last()[x]).slot == (#[trigger] bs.drop_last()[y]).slot
                implies x == y by {
                assert(bs.drop_last()[x] == bs[x]);
                assert(bs.drop_last()[y] == bs[y]);
            }
        }
        assert(bs.drop_last()[i] == bs[i]);
        lemma_block_at_slot_unique(bs.drop_last(), slot, i);
    }
}

/// The recorded attestation with target `tgt`, if any.
pub open spec fn att_at_target(ats: Seq<AttV>, tgt: int) -> Option<AttV>
    decreases ats.len(),
{
    if ats.len() == 0 {
        None
    } else if ats.last().target == tgt {
        Some(ats.last())
    } else {
        att_at_target(ats.drop_last(), tgt)
    }
}

pub proof fn lemma_att_at_target_props(ats: Seq<AttV>, tgt: int)
    ensures
        match att_at_target(ats, tgt) {
            Some(a) => a.target == tgt && exists|i: int| 0 <= i < ats.len() && ats[i] == a,
            None => forall|i: int| 0 <= i < ats.len() ==> (#[trigger] ats[i]).target != tgt,
        },
    decreases ats.len(),
{
    if ats.len() > 0 {
        lemma_att_at_target_props(ats.drop_last(), tgt);
        if ats.last().target != tgt {
            match att_at_target(ats.drop_last(), tgt) {
                Some(a) => {
                    let i = choose|i: int|
                        0 <= i < ats.drop_last().len() && ats.drop_last()[i] == a;
                    assert(ats[i] == a);
                },
                None => {
                    assert forall|i: int| 0 <= i < ats.len() implies (#[trigger] ats[i]).target
                        != tgt by {
                        if i < ats.len() - 1 {
                            assert(ats.drop_last()[i] == ats[i]);
                        }
                    }
                },
            }
        }
    }
}

/// Under target uniqueness, any matching index determines the lookup.
pub proof fn lemma_att_at_target_unique(ats: Seq<AttV>, tgt: int, i: int)
    requires
        crate::store::atts_unique_targets(ats),
        0 <= i < ats.len(),
        ats[i].target == tgt,
    ensures
        att_at_target(ats, tgt) == Some(ats[i]),
    decreases ats.len(),
{
    if i == ats.len() - 1 {
        assert(ats.last() == ats[i]);
    } else {
        assert(ats.last() == ats[ats.len() - 1]);
        assert(ats[ats.len() - 1].target != tgt) by {
            if ats[ats.len() - 1].target == tgt {
                assert(ats[ats.len() - 1].target == ats[i].target);
            }
        }
        assert(crate::store::atts_unique_targets(ats.drop_last())) by {
            assert forall|x: int, y: int|
                0 <= x < ats.drop_last().len() && 0 <= y < ats.drop_last().len()
                    && (#[trigger] ats.drop_last()[x]).target
                    == (#[trigger] ats.drop_last()[y]).target implies x == y by {
                assert(ats.drop_last()[x] == ats[x]);
                assert(ats.drop_last()[y] == ats[y]);
            }
        }
        assert(ats.drop_last()[i] == ats[i]);
        lemma_att_at_target_unique(ats.drop_last(), tgt, i);
    }
}

/// `a` would surround the new attestation `(src, tgt)`.
pub open spec fn surrounds_new(a: AttV, src: int, tgt: int) -> bool {
    a.source < src && tgt < a.target
}

/// `a` would be surrounded by the new attestation `(src, tgt)`.
pub open spec fn surrounded_by_new(a: AttV, src: int, tgt: int) -> bool {
    src < a.source && a.target < tgt
}

/// Among recorded attestations that surround the new one, the one with the
/// greatest target, if any.
pub open spec fn best_prev_surround(ats: Seq<AttV>, src: int, tgt: int) -> Option<AttV>
    decreases ats.len(),
{
    if ats.len() == 0 {
        None
    } else {
        let rest = best_prev_surround(ats.drop_last(), src, tgt);
        let a = ats.last();
        if surrounds_new(a, src, tgt) && (match rest {
            None => true,
            Some(b) => b.target < a.target,
        }) {
            Some(a)
        } else {
            rest
        }
    }
}

/// Among recorded attestations surrounded by the new one, the one with the
/// greatest target, if any.
pub open spec fn best_new_surround(ats: Seq<AttV>, src: int, tgt: int) -> Option<AttV>
    decreases ats.len(),
{
    if ats.len() == 0 {
        None
    } else {
        let rest = best_new_surround(ats.drop_last(), src, tgt);
        let a = ats.last();
        if surrounded_by_new(a, src, tgt) && (match rest {
            None => true,
            Some(b) => b.target < a.target,
        }) {
            Some(a)
        } else {
            rest
        }
    }
}

pub proof fn lemma_best_prev_props(ats: Seq<AttV>, src: int, tgt: int)
    ensures
        match best_prev_surround(ats, src, tgt) {
            Some(p) => surrounds_new(p, src, tgt) && (exists|i: int|
                0 <= i < ats.len() && ats[i] == p) && forall|i: int|
                0 <= i < ats.len() && surrounds_new(#[trigger] ats[i], src, tgt) ==> ats[i].target
                    <= p.target,
            None => forall|i: int| 0 <= i < ats.len() ==> !surrounds_new(
                #[trigger] ats[i],
                src,
                tgt,
            ),
        },
    decreases ats.len(),
{
    if ats.len() > 0 {
        lemma_best_prev_props(ats.drop_last(), src, tgt);
        assert(forall|i: int| 0 <= i < ats.len() - 1 ==> ats.drop_last()[i] == #[trigger] ats[i]);
        assert(ats.last() == ats[ats.len() - 1]);
        match best_prev_surround(ats.drop_last(), src, tgt) {
            Some(b) => {
                let i = choose|i: int| 0 <= i < ats.drop_last().len() && ats.drop_last()[i] == b;
                assert(ats[i] == b);
            },
            None => {},
        }
    }
}

pub proof fn lemma_best_new_props(ats: Seq<AttV>, src: int, tgt: int)
    ensures
        match best_new_surround(ats, src, tgt) {
            Some(p) => surrounded_by_new(p, src, tgt) && (exists|i: int|
                0 <= i < ats.len() && ats[i] == p) && forall|i: int|
                0 <= i < ats.len() && surrounded_by_new(#[trigger] ats[i], src, tgt)
                    ==> ats[i].target <= p.target,
            None => forall|i: int| 0 <= i < ats.len() ==> !surrounded_by_new(
                #[trigger] ats[i],
                src,
                tgt,
            ),
        },
    decreases ats.len(),
{
    if ats.len() > 0 {
        lemma_best_new_props(ats.drop_last(), src, tgt);
        assert(forall|i: int| 0 <= i < ats.len() - 1 ==> ats.drop_last()[i] == #[trigger] ats[i]);
        assert(ats.last() == ats[ats.len() - 1]);
        match best_new_surround(ats.drop_last(), src, tgt) {
            Some(b) => {
                let i = choose|i: int| 0 <= i < ats.drop_last().len() && ats.drop_last()[i] == b;
                assert(ats[i] == b);
            },
            None => {},
        }
    }
}

/// Whether `slot` violates the recorded lower bound on block slots.
pub open spec fn bound_slot_violation(b: Option<BoundV>, slot: int) -> bool {
    match b {
        Some(lb) => match lb.block_slot {
            Some(m) => slot <= m,
            None => false,
        },
        None => false,
    }
}

/// The recorded lower bound on block slots (meaningful when present).
pub open spec fn bound_slot_of(b: Option<BoundV>) -> int {
    match b {
        Some(lb) => match lb.block_slot {
            Some(m) => m,
            None => 0,
        },
        None => 0,
    }
}

/// Whether `src` violates the recorded lower bound on source epochs.
pub open spec fn bound_source_violation(b: Option<BoundV>, src: int) -> bool {
    match b {
        Some(lb) => match lb.source {
            Some(m) => src < m,
            None => false,
        },
        None => false,
    }
}

pub open spec fn bound_source_of(b: Option<BoundV>) -> int {
    match b {
        Some(lb) => match lb.source {
            Some(m) => m,
            None => 0,
        },
        None => 0,
    }
}

/// Whether `tgt` violates the recorded lower bound on target epochs.
pub open spec fn bound_target_violation(b: Option<BoundV>, tgt: int) -> bool {
    match b {
        Some(lb) => match lb.target {
            Some(m) => tgt <= m,
            None => false,
        },
        None => false,
    }
}

pub open spec fn bound_target_of(b: Option<BoundV>) -> int {
    match b {
        Some(lb) => match lb.target {
            Some(m) => m,
            None => 0,
        },
        None => 0,
    }
}

/// The checker's verdict on a block proposal, against one validator's
/// history: lower bound first, then the same-slot lookup.
pub open spec fn check_block_entry(e: ValidatorV, slot: int, root: Seq<u8>) -> BlockDecision {
    if bound_slot_violation(e.bound, slot) {
        BlockDecision::Invalid(
            InvBlockV::SlotViolatesLowerBound { block_slot: slot, bound_slot: bound_slot_of(e.bound) },
        )
    } else {
        match block_at_slot(e.blocks, slot) {
            Some(b) => if b.root == root {
                BlockDecision::SameData
            } else {
                BlockDecision::Invalid(InvBlockV::DoubleBlockProposal(b))
            },
            None => BlockDecision::Valid,
        }
    }
}

/// The checker's verdict on a block proposal against a store.
pub open spec fn check_block_store(s: StoreV, pk: Seq<u8>, slot: int, root: Seq<u8>) -> BlockDecision {
    if !has_validator(s, pk) {
        BlockDecision::Unregistered
    } else {
        check_block_entry(entry_of(s, pk), slot, root)
    }
}

/// The checker's verdict on an attestation, against one validator's history:
/// lower bounds, then the same-target lookup, then the two surround checks.
pub open spec fn check_att_entry(e: ValidatorV, src: int, tgt: int, root: Seq<u8>) -> AttDecision {
    if bound_source_violation(e.bound, src) {
        AttDecision::Invalid(
            InvAttV::SourceLessThanLowerBound {
                source_epoch: src,
                bound_epoch: bound_source_of(e.bound),
            },
        )
    } else if bound_target_violation(e.bound, tgt) {
        AttDecision::Invalid(
            InvAttV::TargetLessThanOrEqLowerBound {
                target_epoch: tgt,
                bound_epoch: bound_target_of(e.bound),
            },
        )
    } else {
        match att_at_target(e.atts, tgt) {
            Some(a) => if a.root == root {
                AttDecision::SameData
            } else {
                AttDecision::Invalid(InvAttV::DoubleVote(a))
            },
            None => match best_prev_surround(e.atts, src, tgt) {
                Some(p) => AttDecision::Invalid(InvAttV::PrevSurroundsNew(p)),
                None => match best_new_surround(e.atts, src, tgt) {
                    Some(p) => AttDecision::Invalid(InvAttV::NewSurroundsPrev(p)),
                    None => AttDecision::Valid,
                },
            },
        }
    }
}

/// The checker's verdict on an attestation against a store. An attestation
/// whose source exceeds its target is rejected before anything else.
pub open spec fn check_att_store(s: StoreV, pk: Seq<u8>, src: int, tgt: int, root: Seq<u8>) -> AttDecision {
    if src > tgt {
        AttDecision::Invalid(InvAttV::SourceExceedsTarget)
    } else if !has_validator(s, pk) {
        AttDecision::Unregistered
    } else {
        check_att_entry(entry_of(s, pk), src, tgt, root)
    }
}

/// How an executable block verdict reflects the checker's decision.
pub open spec fn block_result_matches(r: Result<Safe, NotSafe>, d: BlockDecision, pk: Seq<u8>) -> bool {
    match r {
        Ok(Safe::Valid) => d == BlockDecision::Valid,
        Ok(Safe::SameData) => d == BlockDecision::SameData,
        Err(NotSafe::UnregisteredValidator(p)) => d == BlockDecision::Unregistered && p@ == pk,
        Err(NotSafe::InvalidBlock(ib)) => d == BlockDecision::Invalid(ib@),
        _ => false,
    }
}

/// How an executable attestation verdict reflects the checker's decision.
pub open spec fn att_result_matches(r: Result<Safe, NotSafe>, d: AttDecision, pk: Seq<u8>) -> bool {
    match r {
        Ok(Safe::Valid) => d == AttDecision::Valid,
        Ok(Safe::SameData) => d == AttDecision::SameData,
        Err(NotSafe::UnregisteredValidator(p)) => d == AttDecision::Unregistered && p@ == pk,
        Err(NotSafe::InvalidAttestation(ia)) => d == AttDecision::Invalid(ia@),
        _ => false,
    }
}

/// The store after recording a block for the validator with key `pk`.
pub open spec fn store_insert_block(s: StoreV, pk: Seq<u8>, slot: int, root: Seq<u8>) -> StoreV {
    let i = validator_index(s, pk);
    s.update(
        i,
        ValidatorV { blocks: s[i].blocks.push(BlockV { slot, root }), ..s[i] },
    )
}

/// The store after recording an attestation for the validator with key `pk`.
pub open spec fn store_insert_att(s: StoreV, pk: Seq<u8>, src: int, tgt: int, root: Seq<u8>) -> StoreV {
    let i = validator_index(s, pk);
    s.update(
        i,
        ValidatorV { atts: s[i].atts.push(AttV { source: src, target: tgt, root }), ..s[i] },
    )
}

/// Recording a block the checker accepted preserves the store invariant.
pub proof fn lemma_insert_block_preserves_inv(s: StoreV, pk: Seq<u8>, slot: int, root: Seq<u8>)
    requires
        store_inv(s),
        has_validator(s, pk),
        check_block_entry(entry_of(s, pk), slot, root) == BlockDecision::Valid,
    ensures
        store_inv(store_insert_block(s, pk, slot, root)),
{
    let i = validator_index(s, pk);
    let e = s[i];
    let s2 = store_insert_block(s, pk, slot, root);
    lemma_block_at_slot_props(e.blocks, slot);
    assert forall|x: int, y: int|
        0 <= x < s2.len() && 0 <= y < s2.len() && #[trigger] s2[x].pubkey
            == #[trigger] s2[y].pubkey implies x == y by {
        assert(s2[x].pubkey == s[x].pubkey);
        assert(s2[y].pubkey == s[y].pubkey);
    }
    assert forall|x: int| 0 <= x < s2.len() implies entry_inv(#[trigger] s2[x]) by {
        assert(entry_inv(s[x]));
        if x == i {
            let bs2 = s2[x].blocks;
            assert(bs2 == e.blocks.push(BlockV { slot, root }));
            assert forall|p: int, q: int|
                0 <= p < bs2.len() && 0 <= q < bs2.len() && (#[trigger] bs2[p]).slot
                    == (#[trigger] bs2[q]).slot implies p == q by {
                if p < e.blocks.len() && q < e.blocks.len() {
                    assert(e.blocks[p] == bs2[p]);
                    assert(e.blocks[q] == bs2[q]);
                } else if p < e.blocks.len() && q == e.blocks.len() {
                    assert(e.blocks[p].slot != slot);
                } else if q < e.blocks.len() && p == e.blocks.len() {
                    assert(e.blocks[q].slot != slot);
                }
            }
            assert(s2[x].atts == e.atts);
        }
    }
}

/// Recording an attestation the checker accepted preserves the store
/// invariant.
pub proof fn lemma_insert_att_preserves_inv(s: StoreV, pk: Seq<u8>, src: int, tgt: int, root: Seq<u8>)
    requires
        store_inv(s),
        has_validator(s, pk),
        src <= tgt,
        check_att_entry(entry_of(s, pk), src, tgt, root) == AttDecision::Valid,
    ensures
        store_inv(store_insert_att(s, pk, src, tgt, root)),
{
    let i = validator_index(s, pk);
    let e = s[i];
    let s2 = store_insert_att(s, pk, src, tgt, root);
    let newa = AttV { source: src, target: tgt, root };
    lemma_att_at_target_props(e.atts, tgt);
    lemma_best_prev_props(e.atts, src, tgt);
    lemma_best_new_props(e.atts, src, tgt);
    assert forall|x: int, y: int|
        0 <= x < s2.len() && 0 <= y < s2.len() && #[trigger] s2[x].pubkey
            == #[trigger] s2[y].pubkey implies x == y by {
        assert(s2[x].pubkey == s[x].pubkey);
        assert(s2[y].pubkey == s[y].pubkey);
    }
    assert forall|x: int| 0 <= x < s2.len() implies entry_inv(#[trigger] s2[x]) by {
        assert(entry_inv(s[x]));
        if x == i {
            let as2 = s2[x].atts;
            assert(as2 == e.atts.push(newa));
            assert(forall|p: int| 0 <= p < e.atts.len() ==> as2[p] == #[trigger] e.atts[p]);
            assert(as2[e.atts.len() as int] == newa);
            assert forall|p: int, q: int|
                0 <= p < as2.len() && 0 <= q < as2.len() && (#[trigger] as2[p]).target
                    == (#[trigger] as2[q]).target implies p == q by {
                if p < e.atts.len() && q == e.atts.len() {
                    assert(e.atts[p].target != tgt);
                } else if q < e.atts.len() && p == e.atts.len() {
                    assert(e.atts[q].target != tgt);
                }
            }
            assert forall|p: int, q: int| 0 <= p < as2.len() && 0 <= q < as2.len() implies
                !crate::signed_attestation::surrounds(as2[p], as2[q]) by {
                if p < e.atts.len() && q == e.atts.len() {
                    assert(!surrounds_new(e.atts[p], src, tgt));
                } else if q < e.atts.len() && p == e.atts.len() {
                    assert(!surrounded_by_new(e.atts[q], src, tgt));
                }
            }
            assert forall|p: int| 0 <= p < as2.len() implies (#[trigger] as2[p]).source
                <= as2[p].target by {
                if p < e.atts.len() {
                    assert(e.atts[p].source <= e.atts[p].target);
                }
            }
            assert(s2[x].blocks == e.blocks);
        }
    }
}

impl SlashingStore {
    /// Check a block proposal from `public_key` for slash safety, without
    /// recording anything.
    pub fn check_block_proposal(
        &self,
        public_key: &PublicKey,
        slot: u64,
        signing_root: Hash256,
    ) -> (r: Result<Safe, NotSafe>)
        requires
            self.inv(),
        ensures
            block_result_matches(
                r,
                check_block_store(self@, public_key@, slot as int, signing_root@),
                public_key@,
            ),
    {
        let i = match self.find_validator(public_key) {
            Some(i) => i,
            None => {
                return Err(NotSafe::UnregisteredValidator(*public_key));
            },
        };
        proof {
            lemma_validator_index_is(self@, public_key@, i as int);
        }
        let ghost e = entry_of(self@, public_key@);
        let entry = &self.validators[i];
        proof {
            assert(self@[i as int] == self.validators@[i as int]@);
            assert(entry@ == e);
        }
        if let Some(lb) = &entry.lower_bound {
            if let Some(min_slot) = lb.block_proposal_slot {
                if slot <= min_slot {
                    return Err(
                        NotSafe::InvalidBlock(
                            InvalidBlock::SlotViolatesLowerBound {
                                block_slot: slot,
                                bound_slot: min_slot,
                            },
                        ),
                    );
                }
            }
        }
        proof {
            assert(!bound_slot_violation(e.bound, slot as int));
        }
        let mut j: usize = 0;
        while j < entry.signed_blocks.len()
            invariant
                0 <= j <= entry.signed_blocks@.len(),
                self.inv(),
                has_validator(self@, public_key@),
                entry_of(self@, public_key@) == e,
                entry@ == e,
                e.blocks.len() == entry.signed_blocks@.len(),
                forall|k: int| 0 <= k < j ==> (#[trigger] e.blocks[k]).slot != slot,
                crate::store::blocks_unique_slots(e.blocks),
                !bound_slot_violation(e.bound, slot as int),
            decreases entry.signed_blocks@.len() - j,
        {
            let b = &entry.signed_blocks[j];
            proof {
                assert(b@ == e.blocks[j as int]);
            }
            if b.slot == slot {
                proof {
                    lemma_block_at_slot_unique(e.blocks, slot as int, j as int);
                }
                if b.signing_root.eq_bytes(&signing_root) {
                    return Ok(Safe::SameData);
                } else {
                    return Err(
                        NotSafe::InvalidBlock(InvalidBlock::DoubleBlockProposal(*b)),
                    );
                }
            }
            j += 1;
        }
        proof {
            lemma_block_at_slot_props(e.blocks, slot as int);
            assert(block_at_slot(e.blocks, slot as int) is None) by {
                if block_at_slot(e.blocks, slot as int) is Some {
                    let b = block_at_slot(e.blocks, slot as int).unwrap();
                    let k = choose|k: int| 0 <= k < e.blocks.len() && e.blocks[k] == b;
                    assert(e.blocks[k].slot != slot);
                }
            }
        }
        Ok(Safe::Valid)
    }

    /// Check an attestation from `public_key` for slash safety, without
    /// recording anything.
    pub fn check_attestation(
        &self,
        public_key: &PublicKey,
        att_source_epoch: u64,
        att_target_epoch: u64,
        att_signing_root: Hash256,
    ) -> (r: Result<Safe, NotSafe>)
        requires
            self.inv(),
        ensures
            att_result_matches(
                r,
                check_att_store(
                    self@,
                    public_key@,
                    att_source_epoch as int,
                    att_target_epoch as int,
                    att_signing_root@,
                ),
                public_key@,
            ),
    {
        let ghost src = att_source_epoch as int;
        let ghost tgt = att_target_epoch as int;
        if att_source_epoch > att_target_epoch {
            return Err(NotSafe::InvalidAttestation(InvalidAttestation::SourceExceedsTarget));
        }
        let i = match self.find_validator(public_key) {
            Some(i) => i,
            None => {
                return Err(NotSafe::UnregisteredValidator(*public_key));
            },
        };
        proof {
            lemma_validator_index_is(self@, public_key@, i as int);
        }
        let ghost e = entry_of(self@, public_key@);
        let entry = &self.validators[i];
        proof {
            assert(self@[i as int] == self.validators@[i as int]@);
            assert(entry@ == e);
        }
        if let Some(lb) = &entry.lower_bound {
            if let Some(min_source) = lb.attestation_source_epoch {
                if att_source_epoch < min_source {
                    return Err(
                        NotSafe::InvalidAttestation(
                            InvalidAttestation::SourceLessThanLowerBound {
                                source_epoch: att_source_epoch,
                                bound_epoch: min_source,
                            },
                        ),
                    );
                }
            }
            if let Some(min_target) = lb.attestation_target_epoch {
                if att_target_epoch <= min_target {
                    return Err(
                        NotSafe::InvalidAttestation(
                            InvalidAttestation::TargetLessThanOrEqLowerBound {
                                target_epoch: att_target_epoch,
                                bound_epoch: min_target,
                            },
                        ),
                    );
                }
            }
        }
        proof {
            assert(!bound_source_violation(e.bound, src));
            assert(!bound_target_violation(e.bound, tgt));
        }
        // Same-target lookup: a replay or a double vote.
        let mut j: usize = 0;
        while j < entry.signed_attestations.len()
            invariant
                0 <= j <= entry.signed_attestations@.len(),
                self.inv(),
                has_validator(self@, public_key@),
                entry_of(self@, public_key@) == e,
                entry@ == e,
                e.atts.len() == entry.signed_attestations@.len(),
                forall|k: int| 0 <= k < j ==> (#[trigger] e.atts[k]).target != tgt,
                crate::store::atts_unique_targets(e.atts),
                src == att_source_epoch as int,
                tgt == att_target_epoch as int,
                src <= tgt,
                !bound_source_violation(e.bound, src),
                !bound_target_violation(e.bound, tgt),
            decreases entry.signed_attestations@.len() - j,
        {
            let a = &entry.signed_attestations[j];
            proof {
                assert(a@ == e.atts[j as int]);
            }
            if a.target_epoch == att_target_epoch {
                proof {
                    lemma_att_at_target_unique(e.atts, tgt, j as int);
                }
                if a.signing_root.eq_bytes(&att_signing_root) {
                    return Ok(Safe::SameData);
                } else {
                    return Err(
                        NotSafe::InvalidAttestation(InvalidAttestation::DoubleVote(*a)),
                    );
                }
            }
            j += 1;
        }
        proof {
            lemma_att_at_target_props(e.atts, tgt);
            assert(att_at_target(e.atts, tgt) is None) by {
                if att_at_target(e.atts, tgt) is Some {
                    let a = att_at_target(e.atts, tgt).unwrap();
                    let k = choose|k: int| 0 <= k < e.atts.len() && e.atts[k] == a;
                    assert(e.atts[k].target != tgt);
                }
            }
        }
        // Check that no previous vote surrounds the new one; report the most
        // recent (greatest-target) offender.
        let mut best: Option<SignedAttestation> = None;
        let mut j: usize = 0;
        while j < entry.signed_attestations.len()
            invariant
                0 <= j <= entry.signed_attestations@.len(),
                entry@ == e,
                e.atts.len() == entry.signed_attestations@.len(),
                src == att_source_epoch as int,
                tgt == att_target_epoch as int,
                match best {
                    Some(b) => best_prev_surround(e.atts.take(j as int), src, tgt) == Some(b@),
                    None => best_prev_surround(e.atts.take(j as int), src, tgt) is None,
                },
            decreases entry.signed_attestations@.len() - j,
        {
            let a = &entry.signed_attestations[j];
            proof {
                assert(a@ == e.atts[j as int]);
                let pre = e.atts.take(j as int);
                let cur = e.atts.take(j + 1);
                assert(cur.drop_last() =~= pre);
                assert(cur.last() == e.atts[j as int]);
            }
            let keep = a.source_epoch < att_source_epoch && att_target_epoch < a.target_epoch
                && (match &best {
                Some(b) => b.target_epoch < a.target_epoch,
                None => true,
            });
            if keep {
                best = Some(*a);
            }
            j += 1;
        }
        proof {
            assert(e.atts.take(e.atts.len() as int) =~= e.atts);
        }
        if let Some(prev) = best {
            return Err(
                NotSafe::InvalidAttestation(InvalidAttestation::PrevSurroundsNew { prev }),
            );
        }
        // Check that no previous vote is surrounded by the new one.
        let mut best: Option<SignedAttestation> = None;
        let mut j: usize = 0;
        while j < entry.signed_attestations.len()
            invariant
                0 <= j <= entry.signed_attestations@.len(),
                entry@ == e,
                e.atts.len() == entry.signed_attestations@.len(),
                src == att_source_epoch as int,
                tgt == att_target_epoch as int,
                match best {
                    Some(b) => best_new_surround(e.atts.take(j as int), src, tgt) == Some(b@),
                    None => best_new_surround(e.atts.take(j as int), src, tgt) is None,
                },
            decreases entry.signed_attestations@.len() - j,
        {
            let a = &entry.signed_attestations[j];
            proof {
                assert(a@ == e.atts[j as int]);
                let pre = e.atts.take(j as int);
                let cur = e.atts.take(j + 1);
                assert(cur.drop_last() =~= pre);
                assert(cur.last() == e.atts[j as int]);
            }
            let keep = att_source_epoch < a.source_epoch && a.target_epoch < att_target_epoch
                && (match &best {
                Some(b) => b.target_epoch < a.target_epoch,
                None => true,
            });
            if keep {
                best = Some(*a);
            }
            j += 1;
        }
        proof {
            assert(e.atts.take(e.atts.len() as int) =~= e.atts);
        }
        if let Some(prev) = best {
            return Err(
                NotSafe::InvalidAttestation(InvalidAttestation::NewSurroundsPrev { prev }),
            );
        }
        Ok(Safe::Valid)
    }

    /// Check a block proposal and, when it is safe and new, record it.
    /// Checking and recording happen in one atomic step on this store.
    pub fn check_and_insert_block_signing_root(
        &mut self,
        public_key: &PublicKey,
        slot: u64,
        signing_root: Hash256,
    ) -> (r: Result<Safe, NotSafe>)
        requires
            old(self).inv(),
        ensures
            final(self).inv(),
            block_result_matches(
                r,
                check_block_store(old(self)@, public_key@, slot as int, signing_root@),
                public_key@,
            ),
            check_block_store(old(self)@, public_key@, slot as int, signing_root@)
                == BlockDecision::Valid ==> final(self)@ == store_insert_block(
                old(self)@,
                public_key@,
                slot as int,
                signing_root@,
            ),
            check_block_store(old(self)@, public_key@, slot as int, signing_root@)
                != BlockDecision::Valid ==> final(self)@ == old(self)@,
            bounds_monotone(old(self)@, final(self)@),
    {
        let ghost s0 = self@;
        let ghost d = check_block_store(s0, public_key@, slot as int, signing_root@);
        match self.check_block_proposal(public_key, slot, signing_root) {
            Ok(Safe::Valid) => {
                let i = match self.find_validator(public_key) {
                    Some(i) => i,
                    None => {
                        proof {
                            assert(false);
                        }
                        return Err(NotSafe::SQLError("validator lookup failed".to_string()));
                    },
                };
                proof {
                    lemma_validator_index_is(s0, public_key@, i as int);
                }
                let e = &mut self.validators[i];
                e.signed_blocks.push(SignedBlock { slot, signing_root });
                proof {
                    assert(self@ =~~= store_insert_block(
                        s0,
                        public_key@,
                        slot as int,
                        signing_root@,
                    ));
                    lemma_insert_block_preserves_inv(s0, public_key@, slot as int, signing_root@);
                    lemma_bounds_monotone_pointwise(s0, self@);
                }
                Ok(Safe::Valid)
            },
            Ok(Safe::SameData) => {
                proof {
                    lemma_bounds_monotone_pointwise(s0, s0);
                }
                Ok(Safe::SameData)
            },
            Err(err) => {
                proof {
                    lemma_bounds_monotone_pointwise(s0, s0);
                }
                Err(err)
            },
        }
    }

    /// Check an attestation and, when it is safe and new, record it.
    /// Checking and recording happen in one atomic step on this store.
    pub fn check_and_insert_attestation_signing_root(
        &mut self,
        public_key: &PublicKey,
        att_source_epoch: u64,
        att_target_epoch: u64,
        att_signing_root: Hash256,
    ) -> (r: Result<Safe, NotSafe>)
        requires
            old(self).inv(),
        ensures
            final(self).inv(),
            att_result_matches(
                r,
                check_att_store(
                    old(self)@,
                    public_key@,
                    att_source_epoch as int,
                    att_target_epoch as int,
                    att_signing_root@,
                ),
                public_key@,
            ),
            check_att_store(
                old(self)@,
                public_key@,
                att_source_epoch as int,
                att_target_epoch as int,
                att_signing_root@,
            ) == AttDecision::Valid ==> final(self)@ == store_insert_att(
                old(self)@,
                public_key@,
                att_source_epoch as int,
                att_target_epoch as int,
                att_signing_root@,
            ),
            check_att_store(
                old(self)@,
                public_key@,
                att_source_epoch as int,
                att_target_epoch as int,
                att_signing_root@,
            ) != AttDecision::Valid ==> final(self)@ == old(self)@,
            bounds_monotone(old(self)@, final(self)@),
    {
        let ghost s0 = self@;
        match self.check_attestation(
            public_key,
            att_source_epoch,
            att_target_epoch,
            att_signing_root,
        ) {
            Ok(Safe::Valid) => {
                let i = match self.find_validator(public_key) {
                    Some(i) => i,
                    None => {
                        proof {
                            assert(false);
                        }
                        return Err(NotSafe::SQLError("validator lookup failed".to_string()));
                    },
                };
                proof {
                    lemma_validator_index_is(s0, public_key@, i as int);
                }
                let e = &mut self.validators[i];
                e.signed_attestations.push(
                    SignedAttestation {
                        source_epoch: att_source_epoch,
                        target_epoch: att_target_epoch,
                        signing_root: att_signing_root,
                    },
                );
                proof {
                    assert(self@ =~~= store_insert_att(
                        s0,
                        public_key@,
                        att_source_epoch as int,
                        att_target_epoch as int,
                        att_signing_root@,
                    ));
                    lemma_insert_att_preserves_inv(
                        s0,
                        public_key@,
                        att_source_epoch as int,
                        att_target_epoch as int,
                        att_signing_root@,
                    );
                    lemma_bounds_monotone_pointwise(s0, self@);
                }
                Ok(Safe::Valid)
            },
            Ok(Safe::SameData) => {
                proof {
                    lemma_bounds_monotone_pointwise(s0, s0);
                }
                Ok(Safe::SameData)
            },
            Err(err) => {
                proof {
                    lemma_bounds_monotone_pointwise(s0, s0);
                }
                Err(err)
            },
        }
    }
}

} // verus!
