//! Importing an interchange document: Minimal documents raise lower bounds,
//! Complete documents replay every record through the same check-then-insert
//! path as live signing.

use vstd::prelude::*;

use crate::checker::{
    check_att_store, check_block_store, store_insert_att, store_insert_block, AttDecision,
    BlockDecision,
};
use crate::hash256::{zero_hash, Hash256};
use crate::interchange::{
    CRecV, IAttV, IBlockV, IDataV, IDocV, IErrV, Interchange, InterchangeData, InterchangeError,
    MRecV,
};
use crate::lower_bound::{BoundV, LowerBound};
use crate::pubkey::PublicKey;
use crate::safe::{NotSafe, NotSafeV};
use crate::store::{
    bounds_monotone, has_validator, lemma_bounds_monotone_pointwise, lemma_bounds_monotone_trans,
    lemma_register_chain_props, register_chain, store_update_bound, try_register, SlashingStore,
    StoreV,
};
use crate::SUPPORTED_INTERCHANGE_FORMAT_VERSION;

verus! {

/// An absent signing root is imported as the all-zero hash.
pub open spec fn root_or_zero(r: Option<Seq<u8>>) -> Seq<u8> {
    match r {
        Some(x) => x,
        None => zero_hash(),
    }
}

/// The import failure carried by a rejecting block decision.
pub open spec fn block_decision_err(d: BlockDecision, pk: Seq<u8>) -> IErrV {
    match d {
        BlockDecision::Unregistered => IErrV::NotSafe(NotSafeV::Unregistered(pk)),
        BlockDecision::Invalid(ib) => IErrV::NotSafe(NotSafeV::Block(ib)),
        _ => IErrV::Storage,
    }
}

/// The import failure carried by a rejecting attestation decision.
pub open spec fn att_decision_err(d: AttDecision, pk: Seq<u8>) -> IErrV {
    match d {
        AttDecision::Unregistered => IErrV::NotSafe(NotSafeV::Unregistered(pk)),
        AttDecision::Invalid(ia) => IErrV::NotSafe(NotSafeV::Att(ia)),
        _ => IErrV::Storage,
    }
}

/// Replaying the blocks of one Complete record, stopping at the first
/// rejection.
pub open spec fn import_blocks_spec(s: StoreV, pk: Seq<u8>, bs: Seq<IBlockV>) -> (StoreV, Option<
    IErrV,
>)
    decreases bs.len(),
{
    if bs.len() == 0 {
        (s, None)
    } else {
        let b = bs[0];
        let d = check_block_store(s, pk, b.slot, root_or_zero(b.root));
        if d == BlockDecision::Valid {
            import_blocks_spec(
                store_insert_block(s, pk, b.slot, root_or_zero(b.root)),
                pk,
                bs.drop_first(),
            )
        } else if d == BlockDecision::SameData {
            import_blocks_spec(s, pk, bs.drop_first())
        } else {
            (s, Some(block_decision_err(d, pk)))
        }
    }
}

/// Replaying the attestations of one Complete record, stopping at the first
/// rejection.
pub open spec fn import_atts_spec(s: StoreV, pk: Seq<u8>, ats: Seq<IAttV>) -> (StoreV, Option<
    IErrV,
>)
    decreases ats.len(),
{
    if ats.len() == 0 {
        (s, None)
    } else {
        let a = ats[0];
        let d = check_att_store(s, pk, a.source, a.target, root_or_zero(a.root));
        if d == AttDecision::Valid {
            import_atts_spec(
                store_insert_att(s, pk, a.source, a.target, root_or_zero(a.root)),
                pk,
                ats.drop_first(),
            )
        } else if d == AttDecision::SameData {
            import_atts_spec(s, pk, ats.drop_first())
        } else {
            (s, Some(att_decision_err(d, pk)))
        }
    }
}

/// Importing one Complete record: register its key, then replay its blocks
/// and attestations.
pub open spec fn import_complete_rec_spec(s: StoreV, rec: CRecV) -> (StoreV, Option<IErrV>) {
    match try_register(s, rec.pubkey) {
        None => (s, Some(IErrV::NotSafe(NotSafeV::Storage))),
        Some(s1) => {
            let br = import_blocks_spec(s1, rec.pubkey, rec.blocks);
            if br.1 is Some {
                br
            } else {
                import_atts_spec(br.0, rec.pubkey, rec.atts)
            }
        },
    }
}

/// Importing a Complete document: record by record, stopping at the first
/// rejection and keeping what was imported before it.
pub open spec fn import_complete_spec(s: StoreV, recs: Seq<CRecV>) -> (StoreV, Option<IErrV>)
    decreases recs.len(),
{
    if recs.len() == 0 {
        (s, None)
    } else {
        let r0 = import_complete_rec_spec(s, recs[0]);
        if r0.1 is Some {
            r0
        } else {
            import_complete_spec(r0.0, recs.drop_first())
        }
    }
}

/// A Minimal record must name a source and a target together or not at all.
pub open spec fn mrec_inconsistent(r: MRecV) -> bool {
    (r.source is Some) != (r.target is Some)
}

/// The lower bound a Minimal record asks for.
pub open spec fn mrec_bound(r: MRecV) -> BoundV {
    BoundV { block_slot: r.slot, source: r.source, target: r.target }
}

/// Raising each record's validator's lower bound, in order.
pub open spec fn apply_bounds_spec(s: StoreV, recs: Seq<MRecV>) -> StoreV
    decreases recs.len(),
{
    if recs.len() == 0 {
        s
    } else {
        apply_bounds_spec(
            store_update_bound(s, recs[0].pubkey, mrec_bound(recs[0])),
            recs.drop_first(),
        )
    }
}

/// Importing a Minimal document: all-or-nothing registration and lower-bound
/// updates.
pub open spec fn import_minimal_spec(s: StoreV, recs: Seq<MRecV>) -> (StoreV, Option<IErrV>) {
    if exists|i: int| 0 <= i < recs.len() && mrec_inconsistent(#[trigger] recs[i]) {
        (s, Some(IErrV::MinimalAttestationSourceAndTargetInconsistent))
    } else {
        match register_chain(s, recs.map_values(|r: MRecV| r.pubkey)) {
            None => (s, Some(IErrV::NotSafe(NotSafeV::Storage))),
            Some(s1) => (apply_bounds_spec(s1, recs), None),
        }
    }
}

/// Importing a document: version and chain checks, then the format's rule.
pub open spec fn import_spec(s: StoreV, doc: IDocV, gvr: Seq<u8>) -> (StoreV, Option<IErrV>) {
    if doc.meta.version != SUPPORTED_INTERCHANGE_FORMAT_VERSION as int {
        (s, Some(IErrV::UnsupportedVersion(doc.meta.version)))
    } else if doc.meta.gvr != gvr {
        (s, Some(IErrV::GenesisValidatorsMismatch { interchange_file: doc.meta.gvr, client: gvr }))
    } else {
        match doc.data {
            IDataV::Minimal(recs) => import_minimal_spec(s, recs),
            IDataV::Complete(recs) => import_complete_spec(s, recs),
        }
    }
}

impl SlashingStore {
    /// Import slashing protection history from another client in the
    /// interchange format.
    ///
    /// A Minimal document is applied in one all-or-nothing step. A Complete
    /// document is replayed record by record and a rejection keeps what was
    /// imported before it.
    pub fn import_interchange_info(
        &mut self,
        interchange: &Interchange,
        genesis_validators_root: Hash256,
    ) -> (r: Result<(), InterchangeError>)
        requires
            old(self).inv(),
        ensures
            final(self).inv(),
            final(self)@ == import_spec(old(self)@, interchange@, genesis_validators_root@).0,
            match r {
                Ok(()) => import_spec(old(self)@, interchange@, genesis_validators_root@).1
                    is None,
                Err(e) => import_spec(old(self)@, interchange@, genesis_validators_root@).1
                    == Some(e@),
            },
            bounds_monotone(old(self)@, final(self)@),
    {
        let ghost s0 = self@;
        let ghost docv = interchange@;
        let ghost gvr = genesis_validators_root@;
        proof {
            lemma_bounds_monotone_pointwise(s0, s0);
        }
        let version = interchange.metadata.interchange_format_version;
        if version != SUPPORTED_INTERCHANGE_FORMAT_VERSION {
            return Err(InterchangeError::UnsupportedVersion(version));
        }
        if !genesis_validators_root.eq_bytes(&interchange.metadata.genesis_validators_root) {
            return Err(
                InterchangeError::GenesisValidatorsMismatch {
                    client: genesis_validators_root,
                    interchange_file: interchange.metadata.genesis_validators_root,
                },
            );
        }
        match &interchange.data {
            InterchangeData::Minimal(records) => {
                let ghost recs_v = records@.map_values(|r: crate::interchange::MinimalInterchangeData| r@);
                proof {
                    assert(docv.data == IDataV::Minimal(recs_v));
                }
                // If a source or target is provided, both should be.
                let mut i: usize = 0;
                while i < records.len()
                    invariant
                        0 <= i <= records@.len(),
                        s0 == old(self)@,
                        self@ == s0,
                        self.inv(),
                        recs_v == records@.map_values(
                            |r: crate::interchange::MinimalInterchangeData| r@,
                        ),
                        recs_v.len() == records@.len(),
                        import_spec(s0, interchange@, genesis_validators_root@)
                            == import_minimal_spec(s0, recs_v),
                        forall|k: int| 0 <= k < i ==> !mrec_inconsistent(#[trigger] recs_v[k]),
                    decreases records@.len() - i,
                {
                    let rec = &records[i];
                    proof {
                        assert(rec@ == recs_v[i as int]);
                    }
                    if rec.last_signed_attestation_source_epoch.is_some()
                        != rec.last_signed_attestation_target_epoch.is_some() {
                        proof {
                            assert(mrec_inconsistent(recs_v[i as int]));
                            lemma_bounds_monotone_pointwise(s0, s0);
                        }
                        return Err(InterchangeError::MinimalAttestationSourceAndTargetInconsistent);
                    }
                    i += 1;
                }
                proof {
                    assert(forall|k: int|
                        0 <= k < recs_v.len() ==> !mrec_inconsistent(#[trigger] recs_v[k]));
                }
                // Register every key in the document, all or nothing.
                let mut pks: Vec<PublicKey> = Vec::new();
                let mut i: usize = 0;
                while i < records.len()
                    invariant
                        0 <= i <= records@.len(),
                        recs_v == records@.map_values(
                            |r: crate::interchange::MinimalInterchangeData| r@,
                        ),
                        recs_v.len() == records@.len(),
                        pks@.len() == i,
                        forall|k: int| 0 <= k < i ==> (#[trigger] pks@[k])@ == recs_v[k].pubkey,
                    decreases records@.len() - i,
                {
                    let rec = &records[i];
                    proof {
                        assert(rec@ == recs_v[i as int]);
                    }
                    pks.push(rec.pubkey);
                    i += 1;
                }
                proof {
                    assert(pks@.map_values(|p: PublicKey| p@) =~= recs_v.map_values(
                        |r: MRecV| r.pubkey,
                    ));
                }
                match self.register_validators(&pks) {
                    Err(e) => {
                        return Err(InterchangeError::NotSafe(e));
                    },
                    Ok(()) => {},
                }
                let ghost s1 = self@;
                proof {
                    assert(register_chain(s0, recs_v.map_values(|r: MRecV| r.pubkey)) == Some(
                        s1,
                    ));
                    lemma_register_chain_props(s0, recs_v.map_values(|r: MRecV| r.pubkey));
                    assert forall|k: int| 0 <= k < recs_v.len() implies has_validator(
                        s1,
                        #[trigger] recs_v[k].pubkey,
                    ) by {
                        assert(recs_v.map_values(|r: MRecV| r.pubkey)[k] == recs_v[k].pubkey);
                    }
                    assert(recs_v.skip(0) =~= recs_v);
                }
                // Raise each validator's lower bound.
                let mut i: usize = 0;
                while i < records.len()
                    invariant
                        0 <= i <= records@.len(),
                        s0 == old(self)@,
                        recs_v == records@.map_values(
                            |r: crate::interchange::MinimalInterchangeData| r@,
                        ),
                        recs_v.len() == records@.len(),
                        self.inv(),
                        apply_bounds_spec(s1, recs_v) == apply_bounds_spec(
                            self@,
                            recs_v.skip(i as int),
                        ),
                        forall|pk: Seq<u8>|
                            #[trigger] has_validator(s1, pk) ==> has_validator(self@, pk),
                        forall|k: int|
                            0 <= k < recs_v.len() ==> has_validator(
                                s1,
                                #[trigger] recs_v[k].pubkey,
                            ),
                        bounds_monotone(s0, self@),
                    decreases records@.len() - i,
                {
                    let ghost s_pre = self@;
                    let rec = &records[i];
                    proof {
                        assert(rec@ == recs_v[i as int]);
                        assert(recs_v.skip(i as int)[0] == recs_v[i as int]);
                    }
                    let bound = LowerBound {
                        block_proposal_slot: rec.last_signed_block_slot,
                        attestation_source_epoch: rec.last_signed_attestation_source_epoch,
                        attestation_target_epoch: rec.last_signed_attestation_target_epoch,
                    };
                    proof {
                        assert(bound@ == mrec_bound(recs_v[i as int]));
                    }
                    match self.update_lower_bound(&rec.pubkey, bound) {
                        Ok(()) => {},
                        Err(_) => {
                            proof {
                                assert(has_validator(s1, recs_v[i as int].pubkey));
                                assert(false);
                            }
                            return Err(
                                InterchangeError::MinimalAttestationSourceAndTargetInconsistent,
                            );
                        },
                    }
                    proof {
                        assert(self@ == store_update_bound(
                            s_pre,
                            recs_v[i as int].pubkey,
                            mrec_bound(recs_v[i as int]),
                        ));
                        assert(recs_v.skip(i as int).drop_first() =~= recs_v.skip(i + 1));
                        assert(apply_bounds_spec(s_pre, recs_v.skip(i as int))
                            == apply_bounds_spec(self@, recs_v.skip(i + 1)));
                        assert forall|pk: Seq<u8>| #[trigger] has_validator(s1, pk)
                            implies has_validator(self@, pk) by {
                            assert(has_validator(s_pre, pk));
                        }
                        lemma_bounds_monotone_trans(s0, s_pre, self@);
                    }
                    i += 1;
                }
                proof {
                    assert(recs_v.skip(recs_v.len() as int) =~= Seq::<MRecV>::empty());
                    assert(apply_bounds_spec(s1, recs_v) == self@);
                }
                Ok(())
            },
            InterchangeData::Complete(records) => {
                let ghost recs_v = records@.map_values(
                    |r: crate::interchange::CompleteInterchangeData| r@,
                );
                proof {
                    assert(docv.data == IDataV::Complete(recs_v));
                    assert(recs_v.skip(0) =~= recs_v);
                }
                let mut i: usize = 0;
                while i < records.len()
                    invariant
                        0 <= i <= records@.len(),
                        s0 == old(self)@,
                        recs_v == records@.map_values(
                            |r: crate::interchange::CompleteInterchangeData| r@,
                        ),
                        recs_v.len() == records@.len(),
                        self.inv(),
                        import_spec(s0, interchange@, genesis_validators_root@)
                            == import_complete_spec(s0, recs_v),
                        import_complete_spec(s0, recs_v) == import_complete_spec(
                            self@,
                            recs_v.skip(i as int),
                        ),
                        bounds_monotone(s0, self@),
                    decreases records@.len() - i,
                {
                    let ghost s_rec = self@;
                    let rec = &records[i];
                    proof {
                        assert(rec@ == recs_v[i as int]);
                        assert(recs_v.skip(i as int)[0] == recs_v[i as int]);
                    }
                    match self.register_validator(&rec.pubkey) {
                        Err(e) => {
                            proof {
                                assert(try_register(s_rec, rec@.pubkey) is None);
                                assert(import_complete_rec_spec(s_rec, recs_v[i as int]) == (
                                    s_rec,
                                    Some(IErrV::NotSafe(NotSafeV::Storage)),
                                ));
                            }
                            return Err(InterchangeError::NotSafe(e));
                        },
                        Ok(()) => {},
                    }
                    let ghost s_reg = self@;
                    proof {
                        assert(try_register(s_rec, rec@.pubkey) == Some(s_reg));
                        lemma_bounds_monotone_trans(s0, s_rec, self@);
                        assert(rec@.blocks.skip(0) =~= rec@.blocks);
                    }
                    // Replay the record's signed blocks.
                    let mut j: usize = 0;
                    while j < rec.signed_blocks.len()
                        invariant
                            0 <= j <= rec.signed_blocks@.len(),
                            s0 == old(self)@,
                            rec@.blocks == rec.signed_blocks@.map_values(
                                |b: crate::interchange::InterchangeBlock| b@,
                            ),
                            rec@.blocks.len() == rec.signed_blocks@.len(),
                            self.inv(),
                            import_spec(s0, interchange@, genesis_validators_root@)
                                == import_complete_spec(s0, recs_v),
                            import_complete_spec(s0, recs_v) == import_complete_spec(
                                s_rec,
                                recs_v.skip(i as int),
                            ),
                            0 <= i < recs_v.len(),
                            recs_v.skip(i as int)[0] == recs_v[i as int],
                            recs_v[i as int] == rec@,
                            try_register(s_rec, rec@.pubkey) == Some(s_reg),
                            import_blocks_spec(s_reg, rec@.pubkey, rec@.blocks)
                                == import_blocks_spec(self@, rec@.pubkey, rec@.blocks.skip(j as int)),
                            bounds_monotone(s0, self@),
                        decreases rec.signed_blocks@.len() - j,
                    {
                        let ghost s_pre = self@;
                        let b = &rec.signed_blocks[j];
                        proof {
                            assert(b@ == rec@.blocks[j as int]);
                            assert(rec@.blocks.skip(j as int)[0] == rec@.blocks[j as int]);
                            assert(rec@.blocks.skip(j as int).drop_first() =~= rec@.blocks.skip(
                                j + 1,
                            ));
                        }
                        let root = match b.signing_root {
                            Some(h) => h,
                            None => Hash256::zero(),
                        };
                        proof {
                            assert(root@ == root_or_zero(rec@.blocks[j as int].root));
                        }
                        match self.check_and_insert_block_signing_root(&rec.pubkey, b.slot, root) {
                            Ok(_) => {
                                proof {
                                    lemma_bounds_monotone_trans(s0, s_pre, self@);
                                }
                            },
                            Err(e) => {
                                proof {
                                    let d = check_block_store(
                                        s_pre,
                                        rec@.pubkey,
                                        b@.slot,
                                        root@,
                                    );
                                    assert(IErrV::NotSafe(e@) == block_decision_err(
                                        d,
                                        rec@.pubkey,
                                    ) && !(d is Valid) && !(d is SameData));
                                    assert(import_blocks_spec(
                                        s_pre,
                                        rec@.pubkey,
                                        rec@.blocks.skip(j as int),
                                    ) == (s_pre, Some(IErrV::NotSafe(e@))));
                                    assert(import_complete_rec_spec(s_rec, rec@) == (
                                        s_pre,
                                        Some(IErrV::NotSafe(e@)),
                                    ));
                                }
                                return Err(InterchangeError::NotSafe(e));
                            },
                        }
                        j += 1;
                    }
                    let ghost s_blocks = self@;
                    proof {
                        assert(rec@.blocks.skip(rec@.blocks.len() as int) =~= Seq::<
                            IBlockV,
                        >::empty());
                        assert(import_blocks_spec(s_reg, rec@.pubkey, rec@.blocks) == (
                            s_blocks,
                            None::<IErrV>,
                        ));
                        assert(rec@.atts.skip(0) =~= rec@.atts);
                    }
                    // Replay the record's signed attestations.
                    let mut j: usize = 0;
                    while j < rec.signed_attestations.len()
                        invariant
                            0 <= j <= rec.signed_attestations@.len(),
                            s0 == old(self)@,
                            rec@.atts == rec.signed_attestations@.map_values(
                                |a: crate::interchange::InterchangeAttestation| a@,
                            ),
                            rec@.atts.len() == rec.signed_attestations@.len(),
                            self.inv(),
                            import_spec(s0, interchange@, genesis_validators_root@)
                                == import_complete_spec(s0, recs_v),
                            import_complete_spec(s0, recs_v) == import_complete_spec(
                                s_rec,
                                recs_v.skip(i as int),
                            ),
                            0 <= i < recs_v.len(),
                            recs_v.skip(i as int)[0] == recs_v[i as int],
                            recs_v[i as int] == rec@,
                            try_register(s_rec, rec@.pubkey) == Some(s_reg),
                            import_blocks_spec(s_reg, rec@.pubkey, rec@.blocks) == (
                                s_blocks,
                                None::<IErrV>,
                            ),
                            import_atts_spec(s_blocks, rec@.pubkey, rec@.atts)
                                == import_atts_spec(self@, rec@.pubkey, rec@.atts.skip(j as int)),
                            bounds_monotone(s0, self@),
                        decreases rec.signed_attestations@.len() - j,
                    {
                        let ghost s_pre = self@;
                        let a = &rec.signed_attestations[j];
                        proof {
                            assert(a@ == rec@.atts[j as int]);
                            assert(rec@.atts.skip(j as int)[0] == rec@.atts[j as int]);
                            assert(rec@.atts.skip(j as int).drop_first() =~= rec@.atts.skip(j + 1));
                        }
                        let root = match a.signing_root {
                            Some(h) => h,
                            None => Hash256::zero(),
                        };
                        proof {
                            assert(root@ == root_or_zero(rec@.atts[j as int].root));
                        }
                        match self.check_and_insert_attestation_signing_root(
                            &rec.pubkey,
                            a.source_epoch,
                            a.target_epoch,
                            root,
                        ) {
                            Ok(_) => {
                                proof {
                                    lemma_bounds_monotone_trans(s0, s_pre, self@);
                                }
                            },
                            Err(e) => {
                                proof {
                                    let d = check_att_store(
                                        s_pre,
                                        rec@.pubkey,
                                        a@.source,
                                        a@.target,
                                        root@,
                                    );
                                    assert(IErrV::NotSafe(e@) == att_decision_err(
                                        d,
                                        rec@.pubkey,
                                    ) && !(d is Valid) && !(d is SameData));
                                    assert(import_atts_spec(
                                        s_pre,
                                        rec@.pubkey,
                                        rec@.atts.skip(j as int),
                                    ) == (s_pre, Some(IErrV::NotSafe(e@))));
                                    assert(import_complete_rec_spec(s_rec, rec@) == (
                                        s_pre,
                                        Some(IErrV::NotSafe(e@)),
                                    ));
                                }
                                return Err(InterchangeError::NotSafe(e));
                            },
                        }
                        j += 1;
                    }
                    proof {
                        assert(rec@.atts.skip(rec@.atts.len() as int) =~= Seq::<IAttV>::empty());
                        assert(import_atts_spec(s_blocks, rec@.pubkey, rec@.atts) == (
                            self@,
                            None::<IErrV>,
                        ));
                        assert(import_complete_rec_spec(s_rec, rec@) == (self@, None::<IErrV>));
                        assert(recs_v.skip(i as int).drop_first() =~= recs_v.skip(i + 1));
                        assert(import_complete_spec(s_rec, recs_v.skip(i as int))
                            == import_complete_spec(self@, recs_v.skip(i + 1)));
                    }
                    i += 1;
                }
                proof {
                    assert(recs_v.skip(recs_v.len() as int) =~= Seq::<CRecV>::empty());
                }
                Ok(())
            },
        }
    }
}

} // verus!
