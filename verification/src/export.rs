//! Exporting the store as an interchange document: Minimal when any lower
//! bound is recorded, Complete otherwise, with records ordered by public key.

use vstd::prelude::*;

use crate::hash256::Hash256;
use crate::interchange::{
    CRecV, IAttV, IBlockV, IDataV, IDocV, IMetaV, Interchange, InterchangeAttestation,
    InterchangeBlock, InterchangeData, InterchangeError, InterchangeFormat, InterchangeMetadata,
    MRecV, CompleteInterchangeData, MinimalInterchangeData,
};
use crate::lower_bound::{bound_update, BoundV, LowerBound};
use crate::pubkey::{lemma_lex_lt_trans, lemma_lex_trichotomy, lex_lt, PublicKey};
use crate::signed_attestation::AttV;
use crate::signed_block::BlockV;
use crate::store::{
    count_bounds, entry_of, has_validator, lemma_validator_index_is, store_inv, SlashingStore,
    StoreV, ValidatorEntry, ValidatorV,
};
use crate::SUPPORTED_INTERCHANGE_FORMAT_VERSION;

verus! {

/// The greatest recorded block slot, if any block is recorded.
pub open spec fn max_slot_of(bs: Seq<BlockV>) -> Option<int>
    decreases bs.len(),
{
    if bs.len() == 0 {
        None
    } else {
        match max_slot_of(bs.drop_last()) {
            None => Some(bs.last().slot),
            Some(m) => Some(
                if bs.last().slot > m {
                    bs.last().slot
                } else {
                    m
                },
            ),
        }
    }
}

/// The greatest recorded source epoch, if any attestation is recorded.
pub open spec fn max_source_of(ats: Seq<AttV>) -> Option<int>
    decreases ats.len(),
{
    if ats.len() == 0 {
        None
    } else {
        match max_source_of(ats.drop_last()) {
            None => Some(ats.last().source),
            Some(m) => Some(
                if ats.last().source > m {
                    ats.last().source
                } else {
                    m
                },
            ),
        }
    }
}

/// The greatest recorded target epoch, if any attestation is recorded.
pub open spec fn max_target_of(ats: Seq<AttV>) -> Option<int>
    decreases ats.len(),
{
    if ats.len() == 0 {
        None
    } else {
        match max_target_of(ats.drop_last()) {
            None => Some(ats.last().target),
            Some(m) => Some(
                if ats.last().target > m {
                    ats.last().target
                } else {
                    m
                },
            ),
        }
    }
}

/// Whether a validator has any recorded block or attestation.
pub open spec fn entry_has_data(e: ValidatorV) -> bool {
    e.blocks.len() > 0 || e.atts.len() > 0
}

/// The summary a Minimal export writes for one validator: the maxima of its
/// recorded history, merged with its stored lower bound.
pub open spec fn entry_minimal_bound(e: ValidatorV) -> BoundV {
    let m = BoundV {
        block_slot: max_slot_of(e.blocks),
        source: max_source_of(e.atts),
        target: max_target_of(e.atts),
    };
    match e.bound {
        Some(db) => bound_update(m, db),
        None => m,
    }
}

/// A recorded block as a Complete record carries it.
pub open spec fn complete_block_of(b: BlockV) -> IBlockV {
    IBlockV { slot: b.slot, root: Some(b.root) }
}

/// A recorded attestation as a Complete record carries it.
pub open spec fn complete_att_of(a: AttV) -> IAttV {
    IAttV { source: a.source, target: a.target, root: Some(a.root) }
}

/// One validator's Complete record.
pub open spec fn complete_rec_of(e: ValidatorV) -> CRecV {
    CRecV {
        pubkey: e.pubkey,
        blocks: e.blocks.map_values(|b: BlockV| complete_block_of(b)),
        atts: e.atts.map_values(|a: AttV| complete_att_of(a)),
    }
}

/// One validator's Minimal record.
pub open spec fn minimal_rec_of(e: ValidatorV) -> MRecV {
    let b = entry_minimal_bound(e);
    MRecV { pubkey: e.pubkey, slot: b.block_slot, source: b.source, target: b.target }
}

/// Records strictly ordered by public key.
pub open spec fn sorted_by_pubkey_c(recs: Seq<CRecV>) -> bool {
    forall|p: int, q: int|
        0 <= p < q < recs.len() ==> lex_lt((#[trigger] recs[p]).pubkey, (#[trigger] recs[q]).pubkey)
}

/// Records strictly ordered by public key.
pub open spec fn sorted_by_pubkey_m(recs: Seq<MRecV>) -> bool {
    forall|p: int, q: int|
        0 <= p < q < recs.len() ==> lex_lt((#[trigger] recs[p]).pubkey, (#[trigger] recs[q]).pubkey)
}

/// The metadata an export writes.
pub open spec fn meta_ok(meta: IMetaV, format: InterchangeFormat, gvr: Seq<u8>) -> bool {
    meta == (IMetaV { format, version: SUPPORTED_INTERCHANGE_FORMAT_VERSION as int, gvr })
}

/// What a Complete export contains: exactly one record, with the full
/// history, for every validator with recorded data, ordered by public key.
pub open spec fn export_complete_ok(s: StoreV, gvr: Seq<u8>, doc: IDocV) -> bool {
    &&& meta_ok(doc.meta, InterchangeFormat::Complete, gvr)
    &&& match doc.data {
        IDataV::Complete(recs) => {
            &&& sorted_by_pubkey_c(recs)
            &&& forall|k: int|
                0 <= k < recs.len() ==> has_validator(s, (#[trigger] recs[k]).pubkey)
                    && entry_has_data(entry_of(s, recs[k].pubkey)) && recs[k] == complete_rec_of(
                    entry_of(s, recs[k].pubkey),
                )
            &&& forall|i: int|
                0 <= i < s.len() && entry_has_data(#[trigger] s[i]) ==> exists|k: int|
                    0 <= k < recs.len() && (#[trigger] recs[k]).pubkey == s[i].pubkey
        },
        _ => false,
    }
}

/// What a Minimal export contains: exactly one record, with the merged
/// maxima, for every registered validator, ordered by public key.
pub open spec fn export_minimal_ok(s: StoreV, gvr: Seq<u8>, doc: IDocV) -> bool {
    &&& meta_ok(doc.meta, InterchangeFormat::Minimal, gvr)
    &&& match doc.data {
        IDataV::Minimal(recs) => {
            &&& sorted_by_pubkey_m(recs)
            &&& forall|k: int|
                0 <= k < recs.len() ==> has_validator(s, (#[trigger] recs[k]).pubkey) && recs[k]
                    == minimal_rec_of(entry_of(s, recs[k].pubkey))
            &&& forall|i: int|
                0 <= i < s.len() ==> exists|k: int|
                    0 <= k < recs.len() && (#[trigger] recs[k]).pubkey == (#[trigger] s[i]).pubkey
        },
        _ => false,
    }
}

/// The Complete record of one validator entry.
fn complete_record_for(e: &ValidatorEntry) -> (r: CompleteInterchangeData)
    ensures
        r@ == complete_rec_of(e@),
{
    let mut blocks: Vec<InterchangeBlock> = Vec::new();
    let mut j: usize = 0;
    while j < e.signed_blocks.len()
        invariant
            0 <= j <= e.signed_blocks@.len(),
            e@.blocks.len() == e.signed_blocks@.len(),
            blocks@.len() == j,
            forall|k: int| 0 <= k < j ==> (#[trigger] blocks@[k])@ == complete_block_of(
                e@.blocks[k],
            ),
        decreases e.signed_blocks@.len() - j,
    {
        let b = &e.signed_blocks[j];
        proof {
            assert(b@ == e@.blocks[j as int]);
        }
        blocks.push(InterchangeBlock { slot: b.slot, signing_root: Some(b.signing_root) });
        j += 1;
    }
    let mut atts: Vec<InterchangeAttestation> = Vec::new();
    let mut j: usize = 0;
    while j < e.signed_attestations.len()
        invariant
            0 <= j <= e.signed_attestations@.len(),
            e@.atts.len() == e.signed_attestations@.len(),
            atts@.len() == j,
            forall|k: int| 0 <= k < j ==> (#[trigger] atts@[k])@ == complete_att_of(e@.atts[k]),
        decreases e.signed_attestations@.len() - j,
    {
        let a = &e.signed_attestations[j];
        proof {
            assert(a@ == e@.atts[j as int]);
        }
        atts.push(
            InterchangeAttestation {
                source_epoch: a.source_epoch,
                target_epoch: a.target_epoch,
                signing_root: Some(a.signing_root),
            },
        );
        j += 1;
    }
    let r = CompleteInterchangeData {
        pubkey: e.pubkey,
        signed_blocks: blocks,
        signed_attestations: atts,
    };
    proof {
        assert(r@.blocks =~= complete_rec_of(e@).blocks);
        assert(r@.atts =~= complete_rec_of(e@).atts);
        assert(r@ =~= complete_rec_of(e@));
    }
    r
}

/// The Minimal record of one validator entry.
fn minimal_record_for(e: &ValidatorEntry) -> (r: MinimalInterchangeData)
    ensures
        r@ == minimal_rec_of(e@),
{
    let mut max_slot: Option<u64> = None;
    let mut j: usize = 0;
    while j < e.signed_blocks.len()
        invariant
            0 <= j <= e.signed_blocks@.len(),
            e@.blocks.len() == e.signed_blocks@.len(),
            crate::lower_bound::opt_view(max_slot) == max_slot_of(e@.blocks.take(j as int)),
        decreases e.signed_blocks@.len() - j,
    {
        let b = &e.signed_blocks[j];
        proof {
            assert(b@ == e@.blocks[j as int]);
            let pre = e@.blocks.take(j as int);
            let cur = e@.blocks.take(j + 1);
            assert(cur.drop_last() =~= pre);
            assert(cur.last() == e@.blocks[j as int]);
        }
        max_slot = match max_slot {
            None => Some(b.slot),
            Some(m) => if b.slot > m {
                Some(b.slot)
            } else {
                Some(m)
            },
        };
        j += 1;
    }
    proof {
        assert(e@.blocks.take(e@.blocks.len() as int) =~= e@.blocks);
    }
    let mut max_src: Option<u64> = None;
    let mut max_tgt: Option<u64> = None;
    let mut j: usize = 0;
    while j < e.signed_attestations.len()
        invariant
            0 <= j <= e.signed_attestations@.len(),
            e@.atts.len() == e.signed_attestations@.len(),
            crate::lower_bound::opt_view(max_src) == max_source_of(e@.atts.take(j as int)),
            crate::lower_bound::opt_view(max_tgt) == max_target_of(e@.atts.take(j as int)),
        decreases e.signed_attestations@.len() - j,
    {
        let a = &e.signed_attestations[j];
        proof {
            assert(a@ == e@.atts[j as int]);
            let pre = e@.atts.take(j as int);
            let cur = e@.atts.take(j + 1);
            assert(cur.drop_last() =~= pre);
            assert(cur.last() == e@.atts[j as int]);
        }
        max_src = match max_src {
            None => Some(a.source_epoch),
            Some(m) => if a.source_epoch > m {
                Some(a.source_epoch)
            } else {
                Some(m)
            },
        };
        max_tgt = match max_tgt {
            None => Some(a.target_epoch),
            Some(m) => if a.target_epoch > m {
                Some(a.target_epoch)
            } else {
                Some(m)
            },
        };
        j += 1;
    }
    proof {
        assert(e@.atts.take(e@.atts.len() as int) =~= e@.atts);
    }
    let maxes = LowerBound {
        block_proposal_slot: max_slot,
        attestation_source_epoch: max_src,
        attestation_target_epoch: max_tgt,
    };
    let merged = match e.lower_bound {
        Some(db) => maxes.update(db),
        None => maxes,
    };
    proof {
        assert(merged@ == entry_minimal_bound(e@));
    }
    MinimalInterchangeData {
        pubkey: e.pubkey,
        last_signed_block_slot: merged.block_proposal_slot,
        last_signed_attestation_source_epoch: merged.attestation_source_epoch,
        last_signed_attestation_target_epoch: merged.attestation_target_epoch,
    }
}

/// Where to insert a record so that the list stays ordered by public key.
fn complete_insert_pos(out: &Vec<CompleteInterchangeData>, pk: &PublicKey) -> (p: usize)
    ensures
        p <= out@.len(),
        forall|k: int| 0 <= k < p ==> lex_lt((#[trigger] out@[k])@.pubkey, pk@),
        p < out@.len() ==> !lex_lt(out@[p as int]@.pubkey, pk@),
{
    let mut p: usize = 0;
    while p < out.len()
        invariant
            0 <= p <= out@.len(),
            forall|k: int| 0 <= k < p ==> lex_lt((#[trigger] out@[k])@.pubkey, pk@),
        decreases out@.len() - p,
    {
        if !out[p].pubkey.lex_lt(pk) {
            return p;
        }
        p += 1;
    }
    p
}

/// Where to insert a record so that the list stays ordered by public key.
fn minimal_insert_pos(out: &Vec<MinimalInterchangeData>, pk: &PublicKey) -> (p: usize)
    ensures
        p <= out@.len(),
        forall|k: int| 0 <= k < p ==> lex_lt((#[trigger] out@[k])@.pubkey, pk@),
        p < out@.len() ==> !lex_lt(out@[p as int]@.pubkey, pk@),
{
    let mut p: usize = 0;
    while p < out.len()
        invariant
            0 <= p <= out@.len(),
            forall|k: int| 0 <= k < p ==> lex_lt((#[trigger] out@[k])@.pubkey, pk@),
        decreases out@.len() - p,
    {
        if !out[p].pubkey.lex_lt(pk) {
            return p;
        }
        p += 1;
    }
    p
}

impl SlashingStore {
    /// Export the full signing history, one record per validator with data,
    /// ordered by public key.
    #[verifier::rlimit(60)]
    pub fn export_complete_interchange_info(&self, genesis_validators_root: Hash256) -> (r: Result<
        Interchange,
        InterchangeError,
    >)
        requires
            self.inv(),
        ensures
            match r {
                Ok(doc) => export_complete_ok(self@, genesis_validators_root@, doc@),
                Err(_) => false,
            },
    {
        let ghost s = self@;
        let mut out: Vec<CompleteInterchangeData> = Vec::new();
        let mut i: usize = 0;
        while i < self.validators.len()
            invariant
                0 <= i <= self.validators@.len(),
                s == self@,
                self.inv(),
                s.len() == self.validators@.len(),
                forall|p: int, q: int|
                    0 <= p < q < out@.len() ==> lex_lt(
                        (#[trigger] out@[p])@.pubkey,
                        (#[trigger] out@[q])@.pubkey,
                    ),
                forall|k: int|
                    0 <= k < out@.len() ==> exists|j: int|
                        0 <= j < i && s[j].pubkey == (#[trigger] out@[k])@.pubkey,
                forall|k: int|
                    0 <= k < out@.len() ==> has_validator(s, (#[trigger] out@[k])@.pubkey)
                        && entry_has_data(entry_of(s, out@[k]@.pubkey)) && out@[k]@
                        == complete_rec_of(entry_of(s, out@[k]@.pubkey)),
                forall|j: int|
                    0 <= j < i && entry_has_data(#[trigger] s[j]) ==> exists|k: int|
                        0 <= k < out@.len() && (#[trigger] out@[k])@.pubkey == s[j].pubkey,
            decreases self.validators@.len() - i,
        {
            let ghost out_pre = out@;
            let entry = &self.validators[i];
            proof {
                assert(entry@ == s[i as int]);
            }
            if entry.signed_blocks.len() > 0 || entry.signed_attestations.len() > 0 {
                let rec = complete_record_for(entry);
                let p = complete_insert_pos(&out, &entry.pubkey);
                proof {
                    lemma_validator_index_is(s, s[i as int].pubkey, i as int);
                    assert(rec@.pubkey == s[i as int].pubkey);
                    // The new key differs from every key already present.
                    assert forall|k: int| 0 <= k < out_pre.len() implies out_pre[k]@.pubkey
                        != rec@.pubkey by {
                        let j = choose|j: int|
                            0 <= j < i && s[j].pubkey == out_pre[k]@.pubkey;
                    }
                    if (p as int) < out_pre.len() {
                        lemma_lex_trichotomy(out_pre[p as int]@.pubkey, rec@.pubkey);
                    }
                }
                out.insert(p, rec);
                proof {
                    assert(out@ == out_pre.insert(p as int, rec));
                    assert forall|x: int, y: int| 0 <= x < y < out@.len() implies lex_lt(
                        (#[trigger] out@[x])@.pubkey,
                        (#[trigger] out@[y])@.pubkey,
                    ) by {
                        if x == p {
                            assert(out@[y] == out_pre[y - 1]);
                            assert(lex_lt(rec@.pubkey, out_pre[p as int]@.pubkey));
                            if y - 1 > p {
                                lemma_lex_lt_trans(
                                    rec@.pubkey,
                                    out_pre[p as int]@.pubkey,
                                    out_pre[y - 1]@.pubkey,
                                );
                            }
                        } else if y == p {
                            assert(out@[x] == out_pre[x]);
                        } else if x < p && y < p {
                            assert(out@[x] == out_pre[x] && out@[y] == out_pre[y]);
                        } else if x < p && y > p {
                            assert(out@[x] == out_pre[x] && out@[y] == out_pre[y - 1]);
                            assert(x < y - 1);
                        } else {
                            assert(out@[x] == out_pre[x - 1] && out@[y] == out_pre[y - 1]);
                        }
                    }
                    assert forall|k: int| 0 <= k < out@.len() implies exists|j: int|
                        0 <= j < i + 1 && s[j].pubkey == (#[trigger] out@[k])@.pubkey by {
                        if k < p {
                            assert(out@[k] == out_pre[k]);
                        } else if k == p {
                            assert(s[i as int].pubkey == out@[k]@.pubkey);
                        } else {
                            assert(out@[k] == out_pre[k - 1]);
                        }
                    }
                    assert forall|k: int| 0 <= k < out@.len() implies has_validator(
                        s,
                        (#[trigger] out@[k])@.pubkey,
                    ) && entry_has_data(entry_of(s, out@[k]@.pubkey)) && out@[k]@
                        == complete_rec_of(entry_of(s, out@[k]@.pubkey)) by {
                        if k < p {
                            assert(out@[k] == out_pre[k]);
                        } else if k == p {
                            assert(entry_of(s, rec@.pubkey) == s[i as int]);
                            assert(s[i as int].blocks.len() == entry.signed_blocks@.len());
                        } else {
                            assert(out@[k] == out_pre[k - 1]);
                        }
                    }
                    assert forall|j: int| 0 <= j < i + 1 && entry_has_data(#[trigger] s[j])
                        implies exists|k: int|
                        0 <= k < out@.len() && (#[trigger] out@[k])@.pubkey == s[j].pubkey by {
                        if j < i {
                            let k0 = choose|k0: int|
                                0 <= k0 < out_pre.len() && out_pre[k0]@.pubkey == s[j].pubkey;
                            if k0 < p {
                                assert(out@[k0]@.pubkey == s[j].pubkey);
                            } else {
                                assert(out@[k0 + 1]@.pubkey == s[j].pubkey);
                            }
                        } else {
                            assert(out@[p as int]@.pubkey == s[i as int].pubkey);
                        }
                    }
                }
            } else {
                proof {
                    assert(s[i as int].blocks.len() == 0 && s[i as int].atts.len() == 0);
                    assert(!entry_has_data(s[i as int]));
                }
            }
            i += 1;
        }
        let metadata = InterchangeMetadata {
            interchange_format: InterchangeFormat::Complete,
            interchange_format_version: SUPPORTED_INTERCHANGE_FORMAT_VERSION,
            genesis_validators_root,
        };
        let doc = Interchange { metadata, data: InterchangeData::Complete(out) };
        proof {
            let recs = doc@.data->Complete_0;
            assert(recs == out@.map_values(|r: CompleteInterchangeData| r@));
            assert(recs.len() == out@.len());
            assert(forall|k: int| 0 <= k < recs.len() ==> #[trigger] recs[k] == out@[k]@);
            assert(meta_ok(doc@.meta, InterchangeFormat::Complete, genesis_validators_root@));
            assert forall|x: int, y: int| 0 <= x < y < recs.len() implies lex_lt(
                (#[trigger] recs[x]).pubkey,
                (#[trigger] recs[y]).pubkey,
            ) by {
                assert(recs[x] == out@[x]@ && recs[y] == out@[y]@);
            }
            assert forall|k: int| 0 <= k < recs.len() implies has_validator(
                s,
                (#[trigger] recs[k]).pubkey,
            ) && entry_has_data(entry_of(s, recs[k].pubkey)) && recs[k] == complete_rec_of(
                entry_of(s, recs[k].pubkey),
            ) by {
                assert(recs[k] == out@[k]@);
            }
            assert forall|j: int| 0 <= j < s.len() && entry_has_data(#[trigger] s[j])
                implies exists|k: int|
                0 <= k < recs.len() && (#[trigger] recs[k]).pubkey == s[j].pubkey by {
                let k0 = choose|k0: int|
                    0 <= k0 < out@.len() && (out@[k0])@.pubkey == s[j].pubkey;
                assert(recs[k0].pubkey == s[j].pubkey);
            }
        }
        Ok(doc)
    }

    /// Export the per-validator maxima merged with the stored lower bounds,
    /// one record per registered validator, ordered by public key.
    #[verifier::rlimit(60)]
    pub fn export_minimal_interchange_info(&self, genesis_validators_root: Hash256) -> (r: Result<
        Interchange,
        InterchangeError,
    >)
        requires
            self.inv(),
        ensures
            match r {
                Ok(doc) => export_minimal_ok(self@, genesis_validators_root@, doc@),
                Err(_) => false,
            },
    {
        let ghost s = self@;
        let mut out: Vec<MinimalInterchangeData> = Vec::new();
        let mut i: usize = 0;
        while i < self.validators.len()
            invariant
                0 <= i <= self.validators@.len(),
                s == self@,
                self.inv(),
                s.len() == self.validators@.len(),
                forall|p: int, q: int|
                    0 <= p < q < out@.len() ==> lex_lt(
                        (#[trigger] out@[p])@.pubkey,
                        (#[trigger] out@[q])@.pubkey,
                    ),
                forall|k: int|
                    0 <= k < out@.len() ==> exists|j: int|
                        0 <= j < i && s[j].pubkey == (#[trigger] out@[k])@.pubkey,
                forall|k: int|
                    0 <= k < out@.len() ==> has_validator(s, (#[trigger] out@[k])@.pubkey)
                        && out@[k]@ == minimal_rec_of(entry_of(s, out@[k]@.pubkey)),
                forall|j: int|
                    0 <= j < i ==> exists|k: int|
                        0 <= k < out@.len() && (#[trigger] out@[k])@.pubkey == (
                        #[trigger] s[j]).pubkey,
            decreases self.validators@.len() - i,
        {
            let ghost out_pre = out@;
            let entry = &self.validators[i];
            proof {
                assert(entry@ == s[i as int]);
            }
            let rec = minimal_record_for(entry);
            let p = minimal_insert_pos(&out, &entry.pubkey);
            proof {
                lemma_validator_index_is(s, s[i as int].pubkey, i as int);
                assert(rec@.pubkey == s[i as int].pubkey);
                assert forall|k: int| 0 <= k < out_pre.len() implies out_pre[k]@.pubkey
                    != rec@.pubkey by {
                    let j = choose|j: int| 0 <= j < i && s[j].pubkey == out_pre[k]@.pubkey;
                }
                if (p as int) < out_pre.len() {
                    lemma_lex_trichotomy(out_pre[p as int]@.pubkey, rec@.pubkey);
                }
            }
            out.insert(p, rec);
            proof {
                assert(out@ == out_pre.insert(p as int, rec));
                assert forall|x: int, y: int| 0 <= x < y < out@.len() implies lex_lt(
                    (#[trigger] out@[x])@.pubkey,
                    (#[trigger] out@[y])@.pubkey,
                ) by {
                    if x == p {
                        assert(out@[y] == out_pre[y - 1]);
                        assert(lex_lt(rec@.pubkey, out_pre[p as int]@.pubkey));
                        if y - 1 > p {
                            lemma_lex_lt_trans(
                                rec@.pubkey,
                                out_pre[p as int]@.pubkey,
                                out_pre[y - 1]@.pubkey,
                            );
                        }
                    } else if y == p {
                        assert(out@[x] == out_pre[x]);
                    } else if x < p && y < p {
                        assert(out@[x] == out_pre[x] && out@[y] == out_pre[y]);
                    } else if x < p && y > p {
                        assert(out@[x] == out_pre[x] && out@[y] == out_pre[y - 1]);
                        assert(x < y - 1);
                    } else {
                        assert(out@[x] == out_pre[x - 1] && out@[y] == out_pre[y - 1]);
                    }
                }
                assert forall|k: int| 0 <= k < out@.len() implies exists|j: int|
                    0 <= j < i + 1 && s[j].pubkey == (#[trigger] out@[k])@.pubkey by {
                    if k < p {
                        assert(out@[k] == out_pre[k]);
                    } else if k == p {
                        assert(s[i as int].pubkey == out@[k]@.pubkey);
                    } else {
                        assert(out@[k] == out_pre[k - 1]);
                    }
                }
                assert forall|k: int| 0 <= k < out@.len() implies has_validator(
                    s,
                    (#[trigger] out@[k])@.pubkey,
                ) && out@[k]@ == minimal_rec_of(entry_of(s, out@[k]@.pubkey)) by {
                    if k < p {
                        assert(out@[k] == out_pre[k]);
                    } else if k == p {
                        assert(entry_of(s, rec@.pubkey) == s[i as int]);
                    } else {
                        assert(out@[k] == out_pre[k - 1]);
                    }
                }
                assert forall|j: int| 0 <= j < i + 1 implies exists|k: int|
                    0 <= k < out@.len() && (#[trigger] out@[k])@.pubkey == (#[trigger] s[j]).pubkey by {
                    if j < i {
                        let k0 = choose|k0: int|
                            0 <= k0 < out_pre.len() && out_pre[k0]@.pubkey == s[j].pubkey;
                        if k0 < p {
                            assert(out@[k0]@.pubkey == s[j].pubkey);
                        } else {
                            assert(out@[k0 + 1]@.pubkey == s[j].pubkey);
                        }
                    } else {
                        assert(out@[p as int]@.pubkey == s[i as int].pubkey);
                    }
                }
            }
            i += 1;
        }
        let metadata = InterchangeMetadata {
            interchange_format: InterchangeFormat::Minimal,
            interchange_format_version: SUPPORTED_INTERCHANGE_FORMAT_VERSION,
            genesis_validators_root,
        };
        let doc = Interchange { metadata, data: InterchangeData::Minimal(out) };
        proof {
            let recs = doc@.data->Minimal_0;
            assert(recs == out@.map_values(|r: MinimalInterchangeData| r@));
            assert(recs.len() == out@.len());
            assert(forall|k: int| 0 <= k < recs.len() ==> #[trigger] recs[k] == out@[k]@);
            assert(meta_ok(doc@.meta, InterchangeFormat::Minimal, genesis_validators_root@));
            assert forall|x: int, y: int| 0 <= x < y < recs.len() implies lex_lt(
                (#[trigger] recs[x]).pubkey,
                (#[trigger] recs[y]).pubkey,
            ) by {
                assert(recs[x] == out@[x]@ && recs[y] == out@[y]@);
            }
            assert forall|k: int| 0 <= k < recs.len() implies has_validator(
                s,
                (#[trigger] recs[k]).pubkey,
            ) && recs[k] == minimal_rec_of(entry_of(s, recs[k].pubkey)) by {
                assert(recs[k] == out@[k]@);
            }
            assert forall|j: int| 0 <= j < s.len() implies exists|k: int|
                0 <= k < recs.len() && (#[trigger] recs[k]).pubkey == (#[trigger] s[j]).pubkey by {
                let k0 = choose|k0: int|
                    0 <= k0 < out@.len() && (out@[k0])@.pubkey == s[j].pubkey;
                assert(recs[k0].pubkey == s[j].pubkey);
            }
        }
        Ok(doc)
    }

    /// Export the store's history: Minimal when any lower bound is recorded,
    /// Complete otherwise.
    pub fn export_interchange_info(&self, genesis_validators_root: Hash256) -> (r: Result<
        Interchange,
        InterchangeError,
    >)
        requires
            self.inv(),
        ensures
            match r {
                Ok(doc) => if count_bounds(self@) > 0 {
                    export_minimal_ok(self@, genesis_validators_root@, doc@)
                } else {
                    export_complete_ok(self@, genesis_validators_root@, doc@)
                },
                Err(_) => false,
            },
    {
        let n = match self.num_lower_bound_rows() {
            Ok(n) => n,
            Err(e) => {
                proof {
                    assert(false);
                }
                return Err(InterchangeError::NotSafe(e));
            },
        };
        if n > 0 {
            self.export_minimal_interchange_info(genesis_validators_root)
        } else {
            self.export_complete_interchange_info(genesis_validators_root)
        }
    }
}

} // verus!
