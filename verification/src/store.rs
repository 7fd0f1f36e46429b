//! The slashing-protection store: registered validators and their signing
//! history, with the model invariant that any accepted history is
//! non-slashable in itself.

use vstd::prelude::*;

use crate::lower_bound::{
    bound_leq, bound_update, default_bound, BoundV, LowerBound,
};
use crate::pubkey::PublicKey;
use crate::safe::NotSafe;
use crate::signed_attestation::{surrounds, AttV, SignedAttestation};
use crate::signed_block::{BlockV, SignedBlock};

verus! {

/// The most validator rows a store may hold, so that row counts and
/// identifiers fit their integer types.
pub const MAX_VALIDATOR_ROWS: u32 = 0xFFFF_FFFF;

/// Mathematical model of one registered validator.
#[verifier::ext_equal]
pub ghost struct ValidatorV {
    pub pubkey: Seq<u8>,
    pub blocks: Seq<BlockV>,
    pub atts: Seq<AttV>,
    pub bound: Option<BoundV>,
}

/// The model of a store: its validators, in registration order.
pub type StoreV = Seq<ValidatorV>;

/// One registered validator and its signing history.
pub struct ValidatorEntry {
    pub pubkey: PublicKey,
    pub signed_blocks: Vec<SignedBlock>,
    pub signed_attestations: Vec<SignedAttestation>,
    pub lower_bound: Option<LowerBound>,
}

impl View for ValidatorEntry {
    type V = ValidatorV;

    open spec fn view(&self) -> ValidatorV {
        ValidatorV {
            pubkey: self.pubkey@,
            blocks: self.signed_blocks@.map_values(|b: SignedBlock| b@),
            atts: self.signed_attestations@.map_values(|a: SignedAttestation| a@),
            bound: match self.lower_bound {
                Some(lb) => Some(lb@),
                None => None,
            },
        }
    }
}

/// Whether some validator in `s` has public key `pk`.
pub open spec fn has_validator(s: StoreV, pk: Seq<u8>) -> bool {
    exists|i: int| 0 <= i < s.len() && #[trigger] s[i].pubkey == pk
}

/// The index of the validator with public key `pk` (meaningful only when
/// `has_validator` holds; unique under `pubkeys_unique`).
pub open spec fn validator_index(s: StoreV, pk: Seq<u8>) -> int {
    choose|i: int| 0 <= i < s.len() && #[trigger] s[i].pubkey == pk
}

/// The validator entry with public key `pk`.
pub open spec fn entry_of(s: StoreV, pk: Seq<u8>) -> ValidatorV {
    s[validator_index(s, pk)]
}

/// No two validators share a public key.
pub open spec fn pubkeys_unique(s: StoreV) -> bool {
    forall|i: int, j: int|
        0 <= i < s.len() && 0 <= j < s.len() && #[trigger] s[i].pubkey == #[trigger] s[j].pubkey
            ==> i == j
}

/// At most one block per slot.
pub open spec fn blocks_unique_slots(bs: Seq<BlockV>) -> bool {
    forall|i: int, j: int|
        0 <= i < bs.len() && 0 <= j < bs.len() && #[trigger] bs[i].slot == #[trigger] bs[j].slot
            ==> i == j
}

/// At most one attestation per target epoch.
pub open spec fn atts_unique_targets(ats: Seq<AttV>) -> bool {
    forall|i: int, j: int|
        0 <= i < ats.len() && 0 <= j < ats.len() && #[trigger] ats[i].target
            == #[trigger] ats[j].target ==> i == j
}

/// No recorded attestation surrounds another.
pub open spec fn no_surround(ats: Seq<AttV>) -> bool {
    forall|i: int, j: int|
        0 <= i < ats.len() && 0 <= j < ats.len() ==> !surrounds(
            #[trigger] ats[i],
            #[trigger] ats[j],
        )
}

/// Every recorded attestation has `source <= target`.
pub open spec fn atts_source_le_target(ats: Seq<AttV>) -> bool {
    forall|i: int| 0 <= i < ats.len() ==> #[trigger] ats[i].source <= ats[i].target
}

/// A validator's history is non-slashable in itself.
pub open spec fn entry_inv(e: ValidatorV) -> bool {
    &&& blocks_unique_slots(e.blocks)
    &&& atts_unique_targets(e.atts)
    &&& no_surround(e.atts)
    &&& atts_source_le_target(e.atts)
}

/// The store invariant: unique keys, non-slashable histories, bounded size.
pub open spec fn store_inv(s: StoreV) -> bool {
    &&& pubkeys_unique(s)
    &&& forall|i: int| 0 <= i < s.len() ==> entry_inv(#[trigger] s[i])
    &&& s.len() <= MAX_VALIDATOR_ROWS
}

/// A freshly registered validator: no history, no bound.
pub open spec fn fresh_validator(pk: Seq<u8>) -> ValidatorV {
    ValidatorV { pubkey: pk, blocks: Seq::empty(), atts: Seq::empty(), bound: None }
}

/// Registration of one key: a no-op when the key is present, an appended
/// fresh validator otherwise, and a failure when the store is full.
pub open spec fn try_register(s: StoreV, pk: Seq<u8>) -> Option<StoreV> {
    if has_validator(s, pk) {
        Some(s)
    } else if s.len() < MAX_VALIDATOR_ROWS {
        Some(s.push(fresh_validator(pk)))
    } else {
        None
    }
}

/// Registration of a batch of keys, in order; all-or-nothing.
pub open spec fn register_chain(s: StoreV, pks: Seq<Seq<u8>>) -> Option<StoreV>
    decreases pks.len(),
{
    if pks.len() == 0 {
        Some(s)
    } else {
        match try_register(s, pks[0]) {
            None => None,
            Some(s1) => register_chain(s1, pks.drop_first()),
        }
    }
}

/// The bound of `e`, or the empty bound if none is recorded.
pub open spec fn bound_or_default(b: Option<BoundV>) -> BoundV {
    match b {
        Some(x) => x,
        None => default_bound(),
    }
}

/// Merging `b` into the bound of the validator with key `pk`.
pub open spec fn store_update_bound(s: StoreV, pk: Seq<u8>, b: BoundV) -> StoreV {
    if !has_validator(s, pk) {
        s
    } else {
        let i = validator_index(s, pk);
        s.update(
            i,
            ValidatorV {
                bound: Some(bound_update(bound_or_default(s[i].bound), b)),
                ..s[i]
            },
        )
    }
}

/// How many validators have a recorded lower bound.
pub open spec fn count_bounds(s: StoreV) -> int
    decreases s.len(),
{
    if s.len() == 0 {
        0
    } else {
        count_bounds(s.drop_last()) + if s.last().bound is Some {
            1int
        } else {
            0int
        }
    }
}

/// `a <= b` on optional bounds: an absent bound is below everything.
pub open spec fn opt_bound_leq(a: Option<BoundV>, b: Option<BoundV>) -> bool {
    match a {
        None => true,
        Some(x) => match b {
            Some(y) => bound_leq(x, y),
            None => false,
        },
    }
}

/// Every validator of `s1` is still present in `s2` and its lower bound has
/// not decreased.
pub open spec fn bounds_monotone(s1: StoreV, s2: StoreV) -> bool {
    forall|pk: Seq<u8>|
        #[trigger] has_validator(s1, pk) ==> has_validator(s2, pk) && opt_bound_leq(
            entry_of(s1, pk).bound,
            entry_of(s2, pk).bound,
        )
}

/// Under unique keys, any index holding `pk` is the validator index.
pub proof fn lemma_validator_index_is(s: StoreV, pk: Seq<u8>, i: int)
    requires
        pubkeys_unique(s),
        0 <= i < s.len(),
        s[i].pubkey == pk,
    ensures
        has_validator(s, pk),
        validator_index(s, pk) == i,
        entry_of(s, pk) == s[i],
{
    assert(has_validator(s, pk));
    let j = validator_index(s, pk);
    assert(s[j].pubkey == pk);
}

/// A pointwise way to establish `bounds_monotone`.
pub proof fn lemma_bounds_monotone_pointwise(s1: StoreV, s2: StoreV)
    requires
        pubkeys_unique(s1),
        pubkeys_unique(s2),
        s1.len() <= s2.len(),
        forall|j: int|
            0 <= j < s1.len() ==> #[trigger] s2[j].pubkey == s1[j].pubkey && opt_bound_leq(
                s1[j].bound,
                s2[j].bound,
            ),
    ensures
        bounds_monotone(s1, s2),
{
    assert forall|pk: Seq<u8>| #[trigger] has_validator(s1, pk) implies has_validator(s2, pk)
        && opt_bound_leq(entry_of(s1, pk).bound, entry_of(s2, pk).bound) by {
        let i = validator_index(s1, pk);
        assert(s1[i].pubkey == pk);
        assert(s2[i].pubkey == pk);
        lemma_validator_index_is(s2, pk, i);
        lemma_validator_index_is(s1, pk, i);
    }
}

/// `bounds_monotone` composes.
pub proof fn lemma_bounds_monotone_trans(s1: StoreV, s2: StoreV, s3: StoreV)
    requires
        bounds_monotone(s1, s2),
        bounds_monotone(s2, s3),
    ensures
        bounds_monotone(s1, s3),
{
    assert forall|pk: Seq<u8>| #[trigger] has_validator(s1, pk) implies has_validator(s3, pk)
        && opt_bound_leq(entry_of(s1, pk).bound, entry_of(s3, pk).bound) by {
        assert(has_validator(s2, pk));
        let a = entry_of(s1, pk).bound;
        let b = entry_of(s2, pk).bound;
        let c = entry_of(s3, pk).bound;
        if a is Some {
            crate::lower_bound::lemma_bound_leq_trans(
                a.unwrap(),
                b.unwrap(),
                c.unwrap(),
            );
        }
    }
}

/// `count_bounds` never exceeds the number of validators.
pub proof fn lemma_count_bounds_le_len(s: StoreV)
    ensures
        0 <= count_bounds(s) <= s.len(),
    decreases s.len(),
{
    if s.len() > 0 {
        lemma_count_bounds_le_len(s.drop_last());
    }
}

/// The slashing-protection store.
///
/// Everything a caller can observe of it is expressed over its model,
/// a sequence of [`ValidatorV`].
pub struct SlashingStore {
    pub validators: Vec<ValidatorEntry>,
}

impl View for SlashingStore {
    type V = StoreV;

    open spec fn view(&self) -> StoreV {
        self.validators@.map_values(|e: ValidatorEntry| e@)
    }
}

impl SlashingStore {
    /// The store invariant; established by `new` and preserved by every
    /// operation.
    pub open spec fn inv(&self) -> bool {
        store_inv(self@)
    }

    /// An empty store.
    pub fn new() -> (r: Self)
        ensures
            r@ == Seq::<ValidatorV>::empty(),
            r.inv(),
    {
        let r = SlashingStore { validators: Vec::new() };
        proof {
            assert(r@ =~= Seq::<ValidatorV>::empty());
        }
        r
    }

    /// Index of the validator registered under `pk`, if any.
    pub(crate) fn find_validator(&self, pk: &PublicKey) -> (r: Option<usize>)
        ensures
            match r {
                Some(i) => i < self@.len() && self@[i as int].pubkey == pk@,
                None => !has_validator(self@, pk@),
            },
    {
        let mut i: usize = 0;
        while i < self.validators.len()
            invariant
                0 <= i <= self.validators@.len(),
                self@.len() == self.validators@.len(),
                forall|j: int| 0 <= j < i ==> #[trigger] self@[j].pubkey != pk@,
            decreases self.validators@.len() - i,
        {
            if self.validators[i].pubkey.eq_bytes(pk) {
                return Some(i);
            }
            i += 1;
        }
        None
    }

    /// Register a validator, so that it may record signatures and be checked
    /// against its history. Idempotent.
    pub fn register_validator(&mut self, public_key: &PublicKey) -> (r: Result<(), NotSafe>)
        requires
            old(self).inv(),
        ensures
            final(self).inv(),
            match try_register(old(self)@, public_key@) {
                Some(s2) => r is Ok && final(self)@ == s2,
                None => r is Err && r->Err_0 is SQLError && final(self)@ == old(self)@,
            },
            bounds_monotone(old(self)@, final(self)@),
    {
        let ghost s0 = self@;
        match self.find_validator(public_key) {
            Some(_) => {
                proof {
                    lemma_bounds_monotone_pointwise(s0, s0);
                }
                Ok(())
            },
            None => {
                if self.validators.len() < MAX_VALIDATOR_ROWS as usize {
                    let entry = ValidatorEntry {
                        pubkey: *public_key,
                        signed_blocks: Vec::new(),
                        signed_attestations: Vec::new(),
                        lower_bound: None,
                    };
                    proof {
                        assert(entry@ =~= fresh_validator(public_key@));
                    }
                    self.validators.push(entry);
                    proof {
                        assert(self@ =~= s0.push(fresh_validator(public_key@)));
                        lemma_register_preserves_inv(s0, public_key@);
                        lemma_bounds_monotone_pointwise(s0, self@);
                    }
                    Ok(())
                } else {
                    proof {
                        lemma_bounds_monotone_pointwise(s0, s0);
                    }
                    Err(NotSafe::SQLError("validator table is full".to_string()))
                }
            },
        }
    }

    /// Register a batch of validators in one step: either all of them are
    /// registered or the store is unchanged.
    pub fn register_validators(&mut self, public_keys: &Vec<PublicKey>) -> (r: Result<
        (),
        NotSafe,
    >)
        requires
            old(self).inv(),
        ensures
            final(self).inv(),
            match register_chain(old(self)@, public_keys@.map_values(|p: PublicKey| p@)) {
                Some(s2) => r is Ok && final(self)@ == s2,
                None => r is Err && r->Err_0 is SQLError && final(self)@ == old(self)@,
            },
            bounds_monotone(old(self)@, final(self)@),
    {
        let ghost s0 = self@;
        let ghost pks = public_keys@.map_values(|p: PublicKey| p@);
        let old_len = self.validators.len();
        proof {
            assert(pks.skip(0) =~= pks);
            lemma_bounds_monotone_pointwise(s0, s0);
        }
        let mut i: usize = 0;
        while i < public_keys.len()
            invariant
                0 <= i <= public_keys@.len(),
                s0 == old(self)@,
                pks == public_keys@.map_values(|p: PublicKey| p@),
                pks.len() == public_keys@.len(),
                self.inv(),
                store_inv(s0),
                old_len == s0.len(),
                register_chain(s0, pks) == register_chain(self@, pks.skip(i as int)),
                self@.len() >= s0.len(),
                forall|j: int| 0 <= j < s0.len() ==> #[trigger] self@[j] == s0[j],
                bounds_monotone(s0, self@),
            decreases public_keys@.len() - i,
        {
            let ghost s_pre = self@;
            let pk = public_keys[i];
            match self.register_validator(&pk) {
                Ok(()) => {
                    proof {
                        assert(pks.skip(i as int)[0] == pks[i as int]);
                        assert(pks[i as int] == pk@);
                        assert(try_register(s_pre, pk@) == Some(self@));
                        assert(pks.skip(i as int).drop_first() =~= pks.skip(i + 1));
                        assert(register_chain(s_pre, pks.skip(i as int)) == register_chain(
                            self@,
                            pks.skip(i + 1),
                        ));
                        lemma_bounds_monotone_trans(s0, s_pre, self@);
                    }
                },
                Err(e) => {
                    proof {
                        assert(pks.skip(i as int)[0] == pk@);
                        assert(try_register(s_pre, pk@) is None);
                        assert(register_chain(s_pre, pks.skip(i as int)) is None);
                    }
                    let ghost v_pre = self.validators@;
                    self.validators.truncate(old_len);
                    proof {
                        assert(self.validators@ == v_pre.subrange(0, old_len as int));
                        assert forall|j: int| 0 <= j < s0.len() implies self@[j] == s0[j] by {
                            assert(self.validators@[j] == v_pre[j]);
                            assert(v_pre.map_values(|en: ValidatorEntry| en@)[j] == v_pre[j]@);
                        }
                        assert(self@ =~= s0);
                        lemma_bounds_monotone_pointwise(s0, s0);
                    }
                    return Err(e);
                },
            }
            i += 1;
        }
        proof {
            assert(pks.skip(pks.len() as int) =~= Seq::<Seq<u8>>::empty());
        }
        Ok(())
    }

    /// The store-internal identifier of a registered validator.
    ///
    /// This is not a validator index on the chain; it depends on the order
    /// of registration and is not stable across stores.
    pub fn get_validator_id(&self, public_key: &PublicKey) -> (r: Result<i64, NotSafe>)
        requires
            self.inv(),
        ensures
            match r {
                Ok(id) => has_validator(self@, public_key@) && id == validator_index(
                    self@,
                    public_key@,
                ),
                Err(e) => !has_validator(self@, public_key@) && e@ == (
                crate::safe::NotSafeV::Unregistered(public_key@)),
            },
    {
        match self.find_validator(public_key) {
            Some(i) => {
                proof {
                    lemma_validator_index_is(self@, public_key@, i as int);
                }
                Ok(i as i64)
            },
            None => Err(NotSafe::UnregisteredValidator(*public_key)),
        }
    }

    /// The recorded lower bound of a registered validator.
    pub fn get_lower_bound(&self, public_key: &PublicKey) -> (r: Result<
        Option<LowerBound>,
        NotSafe,
    >)
        requires
            self.inv(),
        ensures
            match r {
                Ok(o) => has_validator(self@, public_key@) && (match o {
                    Some(lb) => entry_of(self@, public_key@).bound == Some(lb@),
                    None => entry_of(self@, public_key@).bound is None,
                }),
                Err(e) => !has_validator(self@, public_key@) && e@ == (
                crate::safe::NotSafeV::Unregistered(public_key@)),
            },
    {
        match self.find_validator(public_key) {
            Some(i) => {
                proof {
                    lemma_validator_index_is(self@, public_key@, i as int);
                }
                Ok(self.validators[i].lower_bound)
            },
            None => Err(NotSafe::UnregisteredValidator(*public_key)),
        }
    }

    /// Raise (never lower) the recorded lower bound of a registered
    /// validator by merging `bound` into it.
    pub fn update_lower_bound(&mut self, public_key: &PublicKey, bound: LowerBound) -> (r: Result<
        (),
        NotSafe,
    >)
        requires
            old(self).inv(),
        ensures
            final(self).inv(),
            match r {
                Ok(()) => has_validator(old(self)@, public_key@) && final(self)@
                    == store_update_bound(old(self)@, public_key@, bound@),
                Err(e) => !has_validator(old(self)@, public_key@) && e@ == (
                crate::safe::NotSafeV::Unregistered(public_key@)) && final(self)@ == old(self)@,
            },
            bounds_monotone(old(self)@, final(self)@),
    {
        let ghost s0 = self@;
        match self.find_validator(public_key) {
            Some(i) => {
                proof {
                    lemma_validator_index_is(s0, public_key@, i as int);
                }
                let current = match self.validators[i].lower_bound {
                    Some(lb) => lb,
                    None => LowerBound::default(),
                };
                let merged = current.update(bound);
                let e = &mut self.validators[i];
                e.lower_bound = Some(merged);
                proof {
                    assert(self@ =~= store_update_bound(s0, public_key@, bound@));
                    lemma_update_bound_preserves_inv(s0, public_key@, bound@);
                    crate::lower_bound::lemma_bound_update(
                        bound_or_default(s0[i as int].bound),
                        bound@,
                    );
                    lemma_bounds_monotone_pointwise(s0, self@);
                }
                Ok(())
            },
            None => {
                proof {
                    lemma_bounds_monotone_pointwise(s0, s0);
                }
                Err(NotSafe::UnregisteredValidator(*public_key))
            },
        }
    }

    /// The number of validator rows.
    pub fn num_validator_rows(&self) -> (r: Result<u32, NotSafe>)
        requires
            self.inv(),
        ensures
            match r {
                Ok(n) => n == self@.len(),
                Err(_) => false,
            },
    {
        Ok(self.validators.len() as u32)
    }

    /// The number of validators with a recorded lower bound.
    pub fn num_lower_bound_rows(&self) -> (r: Result<u32, NotSafe>)
        requires
            self.inv(),
        ensures
            match r {
                Ok(n) => n == count_bounds(self@),
                Err(_) => false,
            },
    {
        let mut count: usize = 0;
        let mut i: usize = 0;
        while i < self.validators.len()
            invariant
                0 <= i <= self.validators@.len(),
                self@.len() == self.validators@.len(),
                count == count_bounds(self@.take(i as int)),
                count <= i,
            decreases self.validators@.len() - i,
        {
            proof {
                let pre = self@.take(i as int);
                let cur = self@.take(i + 1);
                assert(cur.drop_last() =~= pre);
                assert(cur.last() == self@[i as int]);
            }
            if self.validators[i].lower_bound.is_some() {
                count += 1;
            }
            i += 1;
        }
        proof {
            assert(self@.take(self@.len() as int) =~= self@);
            lemma_count_bounds_le_len(self@);
        }
        Ok(count as u32)
    }
}

/// What a successful batch registration guarantees: existing validators are
/// untouched, and every key of the batch is registered afterwards.
pub proof fn lemma_register_chain_props(s: StoreV, pks: Seq<Seq<u8>>)
    ensures
        match register_chain(s, pks) {
            Some(s1) => s.len() <= s1.len() && (forall|j: int|
                0 <= j < s.len() ==> s1[j] == #[trigger] s[j]) && (forall|k: int|
                0 <= k < pks.len() ==> has_validator(s1, #[trigger] pks[k])) && (forall|
                pk: Seq<u8>,
            |
                #[trigger] has_validator(s, pk) ==> has_validator(s1, pk)),
            None => true,
        },
    decreases pks.len(),
{
    if pks.len() > 0 {
        match try_register(s, pks[0]) {
            None => {},
            Some(sa) => {
                assert(sa == s || sa == s.push(fresh_validator(pks[0])));
                assert forall|pk: Seq<u8>| #[trigger] has_validator(s, pk) implies has_validator(
                    sa,
                    pk,
                ) by {
                    let w = choose|w: int| 0 <= w < s.len() && s[w].pubkey == pk;
                    assert(sa[w].pubkey == pk);
                }
                assert(has_validator(sa, pks[0])) by {
                    if has_validator(s, pks[0]) {
                        let w = choose|w: int| 0 <= w < s.len() && s[w].pubkey == pks[0];
                        assert(sa[w].pubkey == pks[0]);
                    } else {
                        assert(sa[s.len() as int].pubkey == pks[0]);
                    }
                }
                lemma_register_chain_props(sa, pks.drop_first());
                match register_chain(sa, pks.drop_first()) {
                    None => {},
                    Some(s1) => {
                        assert forall|j: int| 0 <= j < s.len() implies s1[j] == #[trigger] s[j] by {
                            assert(sa[j] == s[j]);
                        }
                        assert forall|pk: Seq<u8>| #[trigger] has_validator(s, pk)
                            implies has_validator(s1, pk) by {
                            assert(has_validator(sa, pk));
                        }
                        assert forall|k: int| 0 <= k < pks.len() implies has_validator(
                            s1,
                            #[trigger] pks[k],
                        ) by {
                            if k == 0 {
                                assert(has_validator(sa, pks[0]));
                            } else {
                                assert(pks.drop_first()[k - 1] == pks[k]);
                            }
                        }
                    },
                }
            },
        }
    }
}

/// Registering a fresh key preserves the store invariant.
pub proof fn lemma_register_preserves_inv(s: StoreV, pk: Seq<u8>)
    requires
        store_inv(s),
        !has_validator(s, pk),
        s.len() < MAX_VALIDATOR_ROWS,
    ensures
        store_inv(s.push(fresh_validator(pk))),
        try_register(s, pk) == Some(s.push(fresh_validator(pk))),
{
    let s2 = s.push(fresh_validator(pk));
    assert forall|i: int, j: int|
        0 <= i < s2.len() && 0 <= j < s2.len() && #[trigger] s2[i].pubkey
            == #[trigger] s2[j].pubkey implies i == j by {
        if i < s.len() && j < s.len() {
            assert(s[i].pubkey == s[j].pubkey);
        } else if i < s.len() && j == s.len() {
            assert(s[i].pubkey == pk);
        } else if j < s.len() && i == s.len() {
            assert(s[j].pubkey == pk);
        }
    }
    assert forall|i: int| 0 <= i < s2.len() implies entry_inv(#[trigger] s2[i]) by {
        if i < s.len() {
            assert(entry_inv(s[i]));
        }
    }
}

/// Merging a lower bound preserves the store invariant.
pub proof fn lemma_update_bound_preserves_inv(s: StoreV, pk: Seq<u8>, b: BoundV)
    requires
        store_inv(s),
    ensures
        store_inv(store_update_bound(s, pk, b)),
{
    if has_validator(s, pk) {
        let i = validator_index(s, pk);
        let s2 = store_update_bound(s, pk, b);
        assert(s2.len() == s.len());
        assert forall|x: int, y: int|
            0 <= x < s2.len() && 0 <= y < s2.len() && #[trigger] s2[x].pubkey
                == #[trigger] s2[y].pubkey implies x == y by {
            assert(s2[x].pubkey == s[x].pubkey);
            assert(s2[y].pubkey == s[y].pubkey);
        }
        assert forall|x: int| 0 <= x < s2.len() implies entry_inv(#[trigger] s2[x]) by {
            assert(entry_inv(s[x]));
            if x == i {
                assert(s2[x].blocks == s[x].blocks && s2[x].atts == s[x].atts);
            }
        }
    }
}

} // verus!
