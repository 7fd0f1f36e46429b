//! The library's laws: properties that relate several operations, stated
//! and proved over the store model.

use vstd::prelude::*;

use crate::checker::{
    att_at_target, best_new_surround, best_prev_surround, block_at_slot, check_att_store,
    check_block_store, lemma_att_at_target_props, lemma_best_new_props, lemma_best_prev_props,
    lemma_block_at_slot_props, lemma_insert_att_preserves_inv, lemma_insert_block_preserves_inv,
    store_insert_att, store_insert_block, AttDecision, BlockDecision,
};
use crate::export::{
    complete_att_of, complete_block_of, complete_rec_of, entry_has_data, export_complete_ok,
};
use crate::import::{
    apply_bounds_spec, import_atts_spec, import_blocks_spec, import_complete_rec_spec,
    import_complete_spec, import_spec, mrec_bound, mrec_inconsistent, root_or_zero,
};
use crate::interchange::{CRecV, IDataV, IDocV, IErrV, MRecV};
use crate::lower_bound::{bound_leq, bound_update, lemma_bound_update};
use crate::pubkey::lex_lt;
use crate::signed_attestation::{surrounds, AttV};
use crate::signed_block::BlockV;
use crate::store::{
    atts_source_le_target, atts_unique_targets, blocks_unique_slots, bound_or_default, entry_inv,
    entry_of, fresh_validator, has_validator, lemma_register_preserves_inv,
    lemma_validator_index_is, no_surround, register_chain, store_inv, store_update_bound,
    try_register, validator_index, StoreV, ValidatorV, MAX_VALIDATOR_ROWS,
};

verus! {

/// Any history the store accepts is non-slashable in itself: for each
/// validator, at most one block per slot, at most one attestation per
/// target, and no pair of attestations in a surround relation. This is the
/// store invariant, spelled out; every operation of the store preserves it.
pub proof fn lemma_accepted_history_non_slashable(s: StoreV, i: int)
    requires
        store_inv(s),
        0 <= i < s.len(),
    ensures
        blocks_unique_slots(s[i].blocks),
        atts_unique_targets(s[i].atts),
        no_surround(s[i].atts),
{
}

/// Strict lexicographic order is irreflexive.
proof fn lemma_lex_lt_irreflexive(a: Seq<u8>)
    ensures
        !lex_lt(a, a),
    decreases a.len(),
{
    if a.len() > 0 {
        lemma_lex_lt_irreflexive(a.drop_first());
    }
}

/// A lookup over blocks with no matching slot finds nothing.
proof fn lemma_block_at_slot_is_none(bs: Seq<BlockV>, slot: int)
    requires
        forall|i: int| 0 <= i < bs.len() ==> (#[trigger] bs[i]).slot != slot,
    ensures
        block_at_slot(bs, slot) is None,
{
    lemma_block_at_slot_props(bs, slot);
    if block_at_slot(bs, slot) is Some {
        let b = block_at_slot(bs, slot).unwrap();
        let i = choose|i: int| 0 <= i < bs.len() && bs[i] == b;
        assert(bs[i].slot != slot);
    }
}

/// A lookup over attestations with no matching target finds nothing.
proof fn lemma_att_at_target_is_none(ats: Seq<AttV>, tgt: int)
    requires
        forall|i: int| 0 <= i < ats.len() ==> (#[trigger] ats[i]).target != tgt,
    ensures
        att_at_target(ats, tgt) is None,
{
    lemma_att_at_target_props(ats, tgt);
    if att_at_target(ats, tgt) is Some {
        let a = att_at_target(ats, tgt).unwrap();
        let i = choose|i: int| 0 <= i < ats.len() && ats[i] == a;
        assert(ats[i].target != tgt);
    }
}

/// If nothing surrounds the new attestation, the surround search is empty.
proof fn lemma_best_prev_is_none(ats: Seq<AttV>, src: int, tgt: int)
    requires
        forall|i: int| 0 <= i < ats.len() ==> !crate::checker::surrounds_new(
            #[trigger] ats[i],
            src,
            tgt,
        ),
    ensures
        best_prev_surround(ats, src, tgt) is None,
{
    lemma_best_prev_props(ats, src, tgt);
    if best_prev_surround(ats, src, tgt) is Some {
        let p = best_prev_surround(ats, src, tgt).unwrap();
        let i = choose|i: int| 0 <= i < ats.len() && ats[i] == p;
        assert(!crate::checker::surrounds_new(ats[i], src, tgt));
    }
}

/// If the new attestation surrounds nothing, the surround search is empty.
proof fn lemma_best_new_is_none(ats: Seq<AttV>, src: int, tgt: int)
    requires
        forall|i: int| 0 <= i < ats.len() ==> !crate::checker::surrounded_by_new(
            #[trigger] ats[i],
            src,
            tgt,
        ),
    ensures
        best_new_surround(ats, src, tgt) is None,
{
    lemma_best_new_props(ats, src, tgt);
    if best_new_surround(ats, src, tgt) is Some {
        let p = best_new_surround(ats, src, tgt).unwrap();
        let i = choose|i: int| 0 <= i < ats.len() && ats[i] == p;
        assert(!crate::checker::surrounded_by_new(ats[i], src, tgt));
    }
}

/// Distinct registered keys cannot outnumber the validators of a store.
proof fn lemma_distinct_keys_fit(keys: Seq<Seq<u8>>, sup: StoreV)
    requires
        forall|k1: int, k2: int|
            0 <= k1 < k2 < keys.len() ==> #[trigger] keys[k1] != #[trigger] keys[k2],
        forall|k: int| 0 <= k < keys.len() ==> has_validator(sup, #[trigger] keys[k]),
    ensures
        keys.len() <= sup.len(),
    decreases keys.len(),
{
    if keys.len() > 0 {
        let last = keys.last();
        assert(keys[keys.len() - 1] == last);
        assert(has_validator(sup, last));
        let i = choose|i: int| 0 <= i < sup.len() && sup[i].pubkey == last;
        let sup2 = sup.remove(i);
        let keys2 = keys.drop_last();
        assert forall|k: int| 0 <= k < keys2.len() implies has_validator(
            sup2,
            #[trigger] keys2[k],
        ) by {
            assert(keys2[k] == keys[k]);
            assert(keys[k] != last);
            let j = choose|j: int| 0 <= j < sup.len() && sup[j].pubkey == keys[k];
            if j == i {
                assert(sup[i].pubkey == keys[k]);
            } else if j < i {
                assert(sup2[j] == sup[j]);
                assert(sup2[j].pubkey == keys2[k]);
            } else {
                assert(sup2[j - 1] == sup[j]);
                assert(sup2[j - 1].pubkey == keys2[k]);
            }
        }
        assert forall|k1: int, k2: int|
            0 <= k1 < k2 < keys2.len() implies #[trigger] keys2[k1] != #[trigger] keys2[k2] by {
            assert(keys2[k1] == keys[k1] && keys2[k2] == keys[k2]);
        }
        lemma_distinct_keys_fit(keys2, sup2);
    }
}

/// Replaying the blocks of a well-formed fresh record inserts them all.
proof fn lemma_import_blocks_build(sp: StoreV, pk: Seq<u8>, full: Seq<BlockV>, m: int)
    requires
        store_inv(sp),
        has_validator(sp, pk),
        entry_of(sp, pk) == (ValidatorV {
            pubkey: pk,
            blocks: full.take(m),
            atts: Seq::empty(),
            bound: None,
        }),
        blocks_unique_slots(full),
        0 <= m <= full.len(),
    ensures
        ({
            let res = import_blocks_spec(
                sp,
                pk,
                full.map_values(|b: BlockV| complete_block_of(b)).skip(m),
            );
            let done = sp.update(
                validator_index(sp, pk),
                ValidatorV { pubkey: pk, blocks: full, atts: Seq::empty(), bound: None },
            );
            res.1 is None && res.0 == done && store_inv(done)
        }),
    decreases full.len() - m,
{
    let i = validator_index(sp, pk);
    let mapped = full.map_values(|b: BlockV| complete_block_of(b));
    let e = entry_of(sp, pk);
    if m == full.len() {
        assert(mapped.skip(m) =~= Seq::<crate::interchange::IBlockV>::empty());
        assert(full.take(m) =~= full);
        assert(sp.update(i, ValidatorV { pubkey: pk, blocks: full, atts: Seq::empty(), bound: None })
            =~= sp);
    } else {
        let b = full[m];
        assert(mapped.skip(m)[0] == mapped[m]);
        assert(mapped[m] == complete_block_of(b));
        assert(root_or_zero(complete_block_of(b).root) == b.root);
        // The checker accepts the next block: no bound, no same-slot record.
        assert forall|j: int| 0 <= j < e.blocks.len() implies (#[trigger] e.blocks[j]).slot
            != b.slot by {
            assert(e.blocks[j] == full[j]);
        }
        lemma_block_at_slot_is_none(e.blocks, b.slot);
        assert(check_block_store(sp, pk, b.slot, b.root) == BlockDecision::Valid);
        let sp2 = store_insert_block(sp, pk, b.slot, b.root);
        lemma_insert_block_preserves_inv(sp, pk, b.slot, b.root);
        assert(sp2[i].blocks =~= full.take(m + 1)) by {
            assert(e.blocks.push(BlockV { slot: b.slot, root: b.root }) =~= full.take(m + 1));
        }
        lemma_validator_index_is(sp2, pk, i);
        assert(entry_of(sp2, pk) =~= (ValidatorV {
            pubkey: pk,
            blocks: full.take(m + 1),
            atts: Seq::empty(),
            bound: None,
        })) by {
            assert(sp2[i].atts == e.atts);
            assert(sp2[i].bound == e.bound);
        }
        lemma_import_blocks_build(sp2, pk, full, m + 1);
        assert(mapped.skip(m).drop_first() =~= mapped.skip(m + 1));
        let done = sp.update(i, ValidatorV { pubkey: pk, blocks: full, atts: Seq::empty(), bound: None });
        assert(sp2.update(i, ValidatorV { pubkey: pk, blocks: full, atts: Seq::empty(), bound: None })
            =~= done);
    }
}

/// Replaying the attestations of a well-formed fresh record inserts them all.
proof fn lemma_import_atts_build(sp: StoreV, pk: Seq<u8>, fullb: Seq<BlockV>, full: Seq<AttV>, m: int)
    requires
        store_inv(sp),
        has_validator(sp, pk),
        entry_of(sp, pk) == (ValidatorV {
            pubkey: pk,
            blocks: fullb,
            atts: full.take(m),
            bound: None,
        }),
        atts_unique_targets(full),
        no_surround(full),
        atts_source_le_target(full),
        0 <= m <= full.len(),
    ensures
        ({
            let res = import_atts_spec(
                sp,
                pk,
                full.map_values(|a: AttV| complete_att_of(a)).skip(m),
            );
            let done = sp.update(
                validator_index(sp, pk),
                ValidatorV { pubkey: pk, blocks: fullb, atts: full, bound: None },
            );
            res.1 is None && res.0 == done && store_inv(done)
        }),
    decreases full.len() - m,
{
    let i = validator_index(sp, pk);
    let mapped = full.map_values(|a: AttV| complete_att_of(a));
    let e = entry_of(sp, pk);
    if m == full.len() {
        assert(mapped.skip(m) =~= Seq::<crate::interchange::IAttV>::empty());
        assert(full.take(m) =~= full);
        assert(sp.update(i, ValidatorV { pubkey: pk, blocks: fullb, atts: full, bound: None })
            =~= sp);
    } else {
        let a = full[m];
        assert(mapped.skip(m)[0] == mapped[m]);
        assert(mapped[m] == complete_att_of(a));
        assert(root_or_zero(complete_att_of(a).root) == a.root);
        assert(a.source <= a.target);
        assert forall|j: int| 0 <= j < e.atts.len() implies (#[trigger] e.atts[j]).target
            != a.target by {
            assert(e.atts[j] == full[j]);
        }
        lemma_att_at_target_is_none(e.atts, a.target);
        assert forall|j: int| 0 <= j < e.atts.len() implies !crate::checker::surrounds_new(
            #[trigger] e.atts[j],
            a.source,
            a.target,
        ) by {
            assert(e.atts[j] == full[j]);
            assert(!surrounds(full[j], full[m]));
        }
        lemma_best_prev_is_none(e.atts, a.source, a.target);
        assert forall|j: int| 0 <= j < e.atts.len() implies !crate::checker::surrounded_by_new(
            #[trigger] e.atts[j],
            a.source,
            a.target,
        ) by {
            assert(e.atts[j] == full[j]);
            assert(!surrounds(full[m], full[j]));
        }
        lemma_best_new_is_none(e.atts, a.source, a.target);
        assert(check_att_store(sp, pk, a.source, a.target, a.root) == AttDecision::Valid);
        let sp2 = store_insert_att(sp, pk, a.source, a.target, a.root);
        lemma_insert_att_preserves_inv(sp, pk, a.source, a.target, a.root);
        assert(sp2[i].atts =~= full.take(m + 1)) by {
            assert(e.atts.push(AttV { source: a.source, target: a.target, root: a.root }) =~= (
            full.take(m + 1)));
        }
        lemma_validator_index_is(sp2, pk, i);
        assert(entry_of(sp2, pk) =~= (ValidatorV {
            pubkey: pk,
            blocks: fullb,
            atts: full.take(m + 1),
            bound: None,
        })) by {
            assert(sp2[i].blocks == e.blocks);
            assert(sp2[i].bound == e.bound);
        }
        lemma_import_atts_build(sp2, pk, fullb, full, m + 1);
        assert(mapped.skip(m).drop_first() =~= mapped.skip(m + 1));
        let done = sp.update(i, ValidatorV { pubkey: pk, blocks: fullb, atts: full, bound: None });
        assert(sp2.update(i, ValidatorV { pubkey: pk, blocks: fullb, atts: full, bound: None })
            =~= done);
    }
}

/// Importing the Complete record of a well-formed, lower-bound-free entry
/// into a store where its key is fresh appends exactly that entry.
proof fn lemma_import_fresh_record(sp: StoreV, rec: CRecV, e: ValidatorV)
    requires
        store_inv(sp),
        !has_validator(sp, rec.pubkey),
        sp.len() < MAX_VALIDATOR_ROWS,
        entry_inv(e),
        e.pubkey == rec.pubkey,
        e.bound is None,
        rec == complete_rec_of(e),
    ensures
        import_complete_rec_spec(sp, rec) == (sp.push(e), None::<IErrV>),
        store_inv(sp.push(e)),
{
    let pk = rec.pubkey;
    lemma_register_preserves_inv(sp, pk);
    let sp1 = sp.push(fresh_validator(pk));
    assert(try_register(sp, pk) == Some(sp1));
    lemma_validator_index_is(sp1, pk, sp.len() as int);
    let i = sp.len() as int;
    assert(entry_of(sp1, pk) =~= (ValidatorV {
        pubkey: pk,
        blocks: e.blocks.take(0),
        atts: Seq::empty(),
        bound: None,
    })) by {
        assert(e.blocks.take(0) =~= Seq::<BlockV>::empty());
    }
    assert(rec.blocks == e.blocks.map_values(|b: BlockV| complete_block_of(b)));
    assert(rec.blocks.skip(0) =~= rec.blocks);
    lemma_import_blocks_build(sp1, pk, e.blocks, 0);
    let sb = sp1.update(i, ValidatorV { pubkey: pk, blocks: e.blocks, atts: Seq::empty(), bound: None });
    assert(import_blocks_spec(sp1, pk, rec.blocks) == (sb, None::<IErrV>)) by {
        assert(e.blocks.map_values(|b: BlockV| complete_block_of(b)).skip(0) =~= rec.blocks);
    }
    lemma_validator_index_is(sb, pk, i);
    assert(entry_of(sb, pk) =~= (ValidatorV {
        pubkey: pk,
        blocks: e.blocks,
        atts: e.atts.take(0),
        bound: None,
    })) by {
        assert(e.atts.take(0) =~= Seq::<AttV>::empty());
    }
    assert(rec.atts == e.atts.map_values(|a: AttV| complete_att_of(a)));
    lemma_import_atts_build(sb, pk, e.blocks, e.atts, 0);
    let sc = sb.update(i, ValidatorV { pubkey: pk, blocks: e.blocks, atts: e.atts, bound: None });
    assert(import_atts_spec(sb, pk, rec.atts) == (sc, None::<IErrV>)) by {
        assert(e.atts.map_values(|a: AttV| complete_att_of(a)).skip(0) =~= rec.atts);
    }
    assert(sc =~= sp.push(e)) by {
        assert(ValidatorV { pubkey: pk, blocks: e.blocks, atts: e.atts, bound: None } == e);
    }
    assert(store_inv(sp.push(e)));
}

/// Importing a sequence of fresh, well-formed Complete records appends
/// their entries in order.
proof fn lemma_import_complete_fresh(sp: StoreV, s: StoreV, recs: Seq<CRecV>)
    requires
        store_inv(sp),
        store_inv(s),
        forall|k: int| 0 <= k < recs.len() ==> !has_validator(sp, (#[trigger] recs[k]).pubkey),
        forall|k1: int, k2: int|
            0 <= k1 < k2 < recs.len() ==> (#[trigger] recs[k1]).pubkey != (
            #[trigger] recs[k2]).pubkey,
        forall|k: int|
            0 <= k < recs.len() ==> has_validator(s, (#[trigger] recs[k]).pubkey) && recs[k]
                == complete_rec_of(entry_of(s, recs[k].pubkey)) && entry_of(
                s,
                recs[k].pubkey,
            ).bound is None,
        sp.len() + recs.len() <= MAX_VALIDATOR_ROWS,
    ensures
        import_complete_spec(sp, recs) == (
            sp + recs.map_values(|rec: CRecV| entry_of(s, rec.pubkey)),
            None::<IErrV>,
        ),
        store_inv(sp + recs.map_values(|rec: CRecV| entry_of(s, rec.pubkey))),
    decreases recs.len(),
{
    let entries = recs.map_values(|rec: CRecV| entry_of(s, rec.pubkey));
    if recs.len() == 0 {
        assert(sp + entries =~= sp);
    } else {
        let rec0 = recs[0];
        let e0 = entry_of(s, rec0.pubkey);
        let i0 = validator_index(s, rec0.pubkey);
        assert(entry_inv(e0)) by {
            assert(0 <= i0 < s.len() && s[i0] == e0);
        }
        assert(e0.pubkey == rec0.pubkey) by {
            assert(s[i0].pubkey == rec0.pubkey);
        }
        lemma_import_fresh_record(sp, rec0, e0);
        let sp1 = sp.push(e0);
        let rest = recs.drop_first();
        assert forall|k: int| 0 <= k < rest.len() implies !has_validator(
            sp1,
            (#[trigger] rest[k]).pubkey,
        ) by {
            assert(rest[k] == recs[k + 1]);
            assert(recs[0].pubkey != recs[k + 1].pubkey);
            if has_validator(sp1, rest[k].pubkey) {
                let w = choose|w: int| 0 <= w < sp1.len() && sp1[w].pubkey == rest[k].pubkey;
                if w < sp.len() {
                    assert(sp[w].pubkey == rest[k].pubkey);
                    assert(has_validator(sp, recs[k + 1].pubkey));
                } else {
                    assert(sp1[w] == e0);
                }
            }
        }
        assert forall|k1: int, k2: int| 0 <= k1 < k2 < rest.len() implies (
        #[trigger] rest[k1]).pubkey != (#[trigger] rest[k2]).pubkey by {
            assert(rest[k1] == recs[k1 + 1] && rest[k2] == recs[k2 + 1]);
        }
        assert forall|k: int| 0 <= k < rest.len() implies has_validator(
            s,
            (#[trigger] rest[k]).pubkey,
        ) && rest[k] == complete_rec_of(entry_of(s, rest[k].pubkey)) && entry_of(
            s,
            rest[k].pubkey,
        ).bound is None by {
            assert(rest[k] == recs[k + 1]);
        }
        lemma_import_complete_fresh(sp1, s, rest);
        assert(import_complete_rec_spec(sp, rec0) == (sp1, None::<IErrV>));
        assert(import_complete_spec(sp, recs) == import_complete_spec(sp1, rest));
        assert(sp1 + rest.map_values(|rec: CRecV| entry_of(s, rec.pubkey)) =~= sp + entries) by {
            assert(entries[0] == e0);
            assert(forall|k: int|
                0 <= k < rest.len() ==> rest.map_values(|rec: CRecV| entry_of(s, rec.pubkey))[k]
                    == #[trigger] entries[k + 1]);
        }
    }
}

/// Exporting a store that holds no lower bounds and importing the document
/// into a fresh store yields a store that decides every later check exactly
/// as the original does.
pub proof fn lemma_export_import_round_trip(s: StoreV, gvr: Seq<u8>, doc: IDocV)
    requires
        store_inv(s),
        forall|i: int| 0 <= i < s.len() ==> (#[trigger] s[i]).bound is None,
        forall|i: int| 0 <= i < s.len() ==> entry_has_data(#[trigger] s[i]),
        export_complete_ok(s, gvr, doc),
    ensures
        ({
            let (s2, r) = import_spec(Seq::<ValidatorV>::empty(), doc, gvr);
            &&& r is None
            &&& forall|pk: Seq<u8>, slot: int, root: Seq<u8>|
                #[trigger] check_block_store(s2, pk, slot, root) == check_block_store(
                    s,
                    pk,
                    slot,
                    root,
                )
            &&& forall|pk: Seq<u8>, src: int, tgt: int, root: Seq<u8>|
                #[trigger] check_att_store(s2, pk, src, tgt, root) == check_att_store(
                    s,
                    pk,
                    src,
                    tgt,
                    root,
                )
        }),
{
    let empty = Seq::<ValidatorV>::empty();
    assert(store_inv(empty));
    let recs = doc.data->Complete_0;
    assert(doc.meta.version == crate::SUPPORTED_INTERCHANGE_FORMAT_VERSION as int);
    assert(doc.meta.gvr == gvr);
    // The records carry pairwise distinct keys, each registered in `s`.
    assert forall|k1: int, k2: int| 0 <= k1 < k2 < recs.len() implies (
    #[trigger] recs[k1]).pubkey != (#[trigger] recs[k2]).pubkey by {
        assert(lex_lt(recs[k1].pubkey, recs[k2].pubkey));
        lemma_lex_lt_irreflexive(recs[k1].pubkey);
        if recs[k1].pubkey == recs[k2].pubkey {
            assert(lex_lt(recs[k1].pubkey, recs[k1].pubkey));
        }
    }
    assert forall|k: int| 0 <= k < recs.len() implies has_validator(
        s,
        (#[trigger] recs[k]).pubkey,
    ) && recs[k] == complete_rec_of(entry_of(s, recs[k].pubkey)) && entry_of(
        s,
        recs[k].pubkey,
    ).bound is None by {
        let i = validator_index(s, recs[k].pubkey);
        assert(0 <= i < s.len() && s[i] == entry_of(s, recs[k].pubkey));
    }
    lemma_distinct_keys_fit(recs.map_values(|rec: CRecV| rec.pubkey), s);
    assert(recs.len() <= s.len()) by {
        assert(recs.map_values(|rec: CRecV| rec.pubkey).len() == recs.len());
    }
    lemma_import_complete_fresh(empty, s, recs);
    let entries = recs.map_values(|rec: CRecV| entry_of(s, rec.pubkey));
    let s2 = empty + entries;
    assert(s2 =~= entries);
    assert(import_spec(empty, doc, gvr) == (s2, None::<IErrV>));
    // Key sets agree.
    assert forall|k: int| 0 <= k < s2.len() implies (#[trigger] s2[k]).pubkey
        == recs[k].pubkey by {
        let i = validator_index(s, recs[k].pubkey);
        assert(s2[k] == entry_of(s, recs[k].pubkey));
        assert(s[i].pubkey == recs[k].pubkey);
    }
    assert forall|pk: Seq<u8>| #[trigger] has_validator(s2, pk) implies has_validator(s, pk)
        && entry_of(s2, pk) == entry_of(s, pk) by {
        let k = choose|k: int| 0 <= k < s2.len() && s2[k].pubkey == pk;
        assert(s2[k] == entry_of(s, recs[k].pubkey));
        assert(recs[k].pubkey == pk);
        assert(has_validator(s, pk));
        assert(entry_of(s, pk).pubkey == pk) by {
            let i = validator_index(s, pk);
            assert(s[i].pubkey == pk);
        }
        lemma_validator_index_is(s2, pk, k);
    }
    assert forall|pk: Seq<u8>| #[trigger] has_validator(s, pk) implies has_validator(s2, pk) by {
        let i = validator_index(s, pk);
        assert(s[i].pubkey == pk);
        assert(entry_has_data(s[i]));
        let k = choose|k: int| 0 <= k < recs.len() && recs[k].pubkey == s[i].pubkey;
        assert(s2[k].pubkey == pk);
    }
    // Decisions agree, because each registered key maps to an equal entry.
    assert forall|pk: Seq<u8>, slot: int, root: Seq<u8>|
        #[trigger] check_block_store(s2, pk, slot, root) == check_block_store(
            s,
            pk,
            slot,
            root,
        ) by {
        if has_validator(s2, pk) {
            assert(entry_of(s2, pk) == entry_of(s, pk));
        } else {
            assert(!has_validator(s, pk));
        }
    }
    assert forall|pk: Seq<u8>, src: int, tgt: int, root: Seq<u8>|
        #[trigger] check_att_store(s2, pk, src, tgt, root) == check_att_store(
            s,
            pk,
            src,
            tgt,
            root,
        ) by {
        if has_validator(s2, pk) {
            assert(entry_of(s2, pk) == entry_of(s, pk));
        } else {
            assert(!has_validator(s, pk));
        }
    }
}

/// `s` is a prefix of `t`.
pub open spec fn seq_prefix_of<A>(s: Seq<A>, t: Seq<A>) -> bool {
    s.len() <= t.len() && forall|j: int| 0 <= j < s.len() ==> s[j] == t[j]
}

/// `t` extends `s` the way a Complete import extends a store: validators
/// are kept in place with their bounds, and histories only grow at the end.
pub open spec fn store_extends(s: StoreV, t: StoreV) -> bool {
    s.len() <= t.len() && forall|j: int|
        0 <= j < s.len() ==> (#[trigger] t[j]).pubkey == s[j].pubkey && t[j].bound == s[j].bound
            && seq_prefix_of(s[j].blocks, t[j].blocks) && seq_prefix_of(s[j].atts, t[j].atts)
}

proof fn lemma_extends_refl(s: StoreV)
    ensures
        store_extends(s, s),
{
}

proof fn lemma_extends_trans(a: StoreV, b: StoreV, c: StoreV)
    requires
        store_extends(a, b),
        store_extends(b, c),
    ensures
        store_extends(a, c),
{
    assert forall|j: int| 0 <= j < a.len() implies (#[trigger] c[j]).pubkey == a[j].pubkey
        && c[j].bound == a[j].bound && seq_prefix_of(a[j].blocks, c[j].blocks) && seq_prefix_of(
        a[j].atts,
        c[j].atts,
    ) by {
        assert(b[j].pubkey == a[j].pubkey);
    }
}

/// Replaying blocks preserves the invariant and only extends the store.
proof fn lemma_import_blocks_extends(s: StoreV, pk: Seq<u8>, bs: Seq<crate::interchange::IBlockV>)
    requires
        store_inv(s),
    ensures
        store_inv(import_blocks_spec(s, pk, bs).0),
        store_extends(s, import_blocks_spec(s, pk, bs).0),
    decreases bs.len(),
{
    if bs.len() > 0 {
        let b = bs[0];
        let root = root_or_zero(b.root);
        let d = check_block_store(s, pk, b.slot, root);
        if d == BlockDecision::Valid {
            let s1 = store_insert_block(s, pk, b.slot, root);
            lemma_insert_block_preserves_inv(s, pk, b.slot, root);
            assert(store_extends(s, s1));
            lemma_import_blocks_extends(s1, pk, bs.drop_first());
            lemma_extends_trans(s, s1, import_blocks_spec(s1, pk, bs.drop_first()).0);
        } else if d == BlockDecision::SameData {
            lemma_import_blocks_extends(s, pk, bs.drop_first());
        } else {
            lemma_extends_refl(s);
        }
    } else {
        lemma_extends_refl(s);
    }
}

/// Replaying attestations preserves the invariant and only extends the
/// store.
proof fn lemma_import_atts_extends(s: StoreV, pk: Seq<u8>, ats: Seq<crate::interchange::IAttV>)
    requires
        store_inv(s),
    ensures
        store_inv(import_atts_spec(s, pk, ats).0),
        store_extends(s, import_atts_spec(s, pk, ats).0),
    decreases ats.len(),
{
    if ats.len() > 0 {
        let a = ats[0];
        let root = root_or_zero(a.root);
        let d = check_att_store(s, pk, a.source, a.target, root);
        if d == AttDecision::Valid {
            let s1 = store_insert_att(s, pk, a.source, a.target, root);
            lemma_insert_att_preserves_inv(s, pk, a.source, a.target, root);
            assert(store_extends(s, s1));
            lemma_import_atts_extends(s1, pk, ats.drop_first());
            lemma_extends_trans(s, s1, import_atts_spec(s1, pk, ats.drop_first()).0);
        } else if d == AttDecision::SameData {
            lemma_import_atts_extends(s, pk, ats.drop_first());
        } else {
            lemma_extends_refl(s);
        }
    } else {
        lemma_extends_refl(s);
    }
}

/// Importing one Complete record preserves the invariant and only extends
/// the store.
proof fn lemma_import_rec_extends(s: StoreV, rec: CRecV)
    requires
        store_inv(s),
    ensures
        store_inv(import_complete_rec_spec(s, rec).0),
        store_extends(s, import_complete_rec_spec(s, rec).0),
{
    match try_register(s, rec.pubkey) {
        None => {
            lemma_extends_refl(s);
        },
        Some(sa) => {
            if !has_validator(s, rec.pubkey) {
                lemma_register_preserves_inv(s, rec.pubkey);
            }
            assert(store_inv(sa));
            assert(store_extends(s, sa));
            lemma_import_blocks_extends(sa, rec.pubkey, rec.blocks);
            let br = import_blocks_spec(sa, rec.pubkey, rec.blocks);
            lemma_extends_trans(s, sa, br.0);
            if br.1 is Some {
            } else {
                lemma_import_atts_extends(br.0, rec.pubkey, rec.atts);
                lemma_extends_trans(s, br.0, import_atts_spec(br.0, rec.pubkey, rec.atts).0);
            }
        },
    }
}

/// Importing a Complete document preserves the invariant and only extends
/// the store.
proof fn lemma_import_complete_extends(s: StoreV, recs: Seq<CRecV>)
    requires
        store_inv(s),
    ensures
        store_inv(import_complete_spec(s, recs).0),
        store_extends(s, import_complete_spec(s, recs).0),
    decreases recs.len(),
{
    if recs.len() == 0 {
        lemma_extends_refl(s);
    } else {
        lemma_import_rec_extends(s, recs[0]);
        let r0 = import_complete_rec_spec(s, recs[0]);
        if r0.1 is Some {
        } else {
            lemma_import_complete_extends(r0.0, recs.drop_first());
            lemma_extends_trans(s, r0.0, import_complete_spec(r0.0, recs.drop_first()).0);
        }
    }
}

/// A block accepted from `s` reads back as `SameData` from any invariant
/// store that extends the state it was accepted into.
proof fn lemma_block_reads_same(s: StoreV, t: StoreV, pk: Seq<u8>, slot: int, root: Seq<u8>)
    requires
        store_inv(s),
        store_inv(t),
        store_extends(s, t),
        has_validator(s, pk),
        !crate::checker::bound_slot_violation(entry_of(s, pk).bound, slot),
        exists|n: int|
            0 <= n < entry_of(s, pk).blocks.len() && entry_of(s, pk).blocks[n] == (BlockV {
                slot,
                root,
            }),
    ensures
        check_block_store(t, pk, slot, root) == BlockDecision::SameData,
{
    let i = validator_index(s, pk);
    assert(0 <= i < s.len() && s[i].pubkey == pk);
    assert(t[i].pubkey == pk);
    lemma_validator_index_is(t, pk, i);
    let n = choose|n: int|
        0 <= n < entry_of(s, pk).blocks.len() && entry_of(s, pk).blocks[n] == (BlockV {
            slot,
            root,
        });
    assert(t[i].blocks[n] == (BlockV { slot, root }));
    crate::checker::lemma_block_at_slot_unique(t[i].blocks, slot, n);
    assert(entry_inv(t[i]));
    assert(t[i].bound == s[i].bound);
}

/// An attestation accepted from `s` reads back as `SameData` from any
/// invariant store that extends the state it was accepted into.
proof fn lemma_att_reads_same(s: StoreV, t: StoreV, pk: Seq<u8>, src: int, tgt: int, root: Seq<u8>)
    requires
        store_inv(s),
        store_inv(t),
        store_extends(s, t),
        has_validator(s, pk),
        src <= tgt,
        !crate::checker::bound_source_violation(entry_of(s, pk).bound, src),
        !crate::checker::bound_target_violation(entry_of(s, pk).bound, tgt),
        exists|n: int|
            0 <= n < entry_of(s, pk).atts.len() && entry_of(s, pk).atts[n] == (AttV {
                source: src,
                target: tgt,
                root,
            }),
    ensures
        check_att_store(t, pk, src, tgt, root) == AttDecision::SameData,
{
    let i = validator_index(s, pk);
    assert(0 <= i < s.len() && s[i].pubkey == pk);
    assert(t[i].pubkey == pk);
    lemma_validator_index_is(t, pk, i);
    let n = choose|n: int|
        0 <= n < entry_of(s, pk).atts.len() && entry_of(s, pk).atts[n] == (AttV {
            source: src,
            target: tgt,
            root,
        });
    assert(t[i].atts[n] == (AttV { source: src, target: tgt, root }));
    crate::checker::lemma_att_at_target_unique(t[i].atts, tgt, n);
    assert(entry_inv(t[i]));
    assert(t[i].bound == s[i].bound);
}

/// Replaying blocks a second time, from any store that extends their final
/// state, changes nothing and repeats the verdict.
proof fn lemma_reimport_blocks(s: StoreV, t: StoreV, pk: Seq<u8>, bs: Seq<crate::interchange::IBlockV>)
    requires
        store_inv(s),
        store_inv(t),
        store_extends(import_blocks_spec(s, pk, bs).0, t),
        import_blocks_spec(s, pk, bs).1 is Some ==> t == import_blocks_spec(s, pk, bs).0,
    ensures
        import_blocks_spec(t, pk, bs) == (t, import_blocks_spec(s, pk, bs).1),
    decreases bs.len(),
{
    if bs.len() == 0 {
    } else {
        let b = bs[0];
        let root = root_or_zero(b.root);
        let d = check_block_store(s, pk, b.slot, root);
        if d == BlockDecision::Valid {
            let s1 = store_insert_block(s, pk, b.slot, root);
            lemma_insert_block_preserves_inv(s, pk, b.slot, root);
            lemma_import_blocks_extends(s1, pk, bs.drop_first());
            lemma_extends_trans(s1, import_blocks_spec(s1, pk, bs.drop_first()).0, t);
            let i = validator_index(s, pk);
            assert(s1[i].blocks == s[i].blocks.push(BlockV { slot: b.slot, root }));
            assert(s1[i].blocks[s[i].blocks.len() as int] == (BlockV { slot: b.slot, root }));
            lemma_validator_index_is(s1, pk, i);
            lemma_block_reads_same(s1, t, pk, b.slot, root);
            lemma_reimport_blocks(s1, t, pk, bs.drop_first());
        } else if d == BlockDecision::SameData {
            lemma_import_blocks_extends(s, pk, bs.drop_first());
            lemma_extends_trans(s, import_blocks_spec(s, pk, bs.drop_first()).0, t);
            let e = entry_of(s, pk);
            lemma_block_at_slot_props(e.blocks, b.slot);
            let x = block_at_slot(e.blocks, b.slot).unwrap();
            assert(x.root == root && x.slot == b.slot);
            assert(x == (BlockV { slot: b.slot, root }));
            lemma_block_reads_same(s, t, pk, b.slot, root);
            lemma_reimport_blocks(s, t, pk, bs.drop_first());
        } else {
            assert(t == s);
        }
    }
}

/// Replaying attestations a second time, from any store that extends their
/// final state, changes nothing and repeats the verdict.
proof fn lemma_reimport_atts(s: StoreV, t: StoreV, pk: Seq<u8>, ats: Seq<crate::interchange::IAttV>)
    requires
        store_inv(s),
        store_inv(t),
        store_extends(import_atts_spec(s, pk, ats).0, t),
        import_atts_spec(s, pk, ats).1 is Some ==> t == import_atts_spec(s, pk, ats).0,
    ensures
        import_atts_spec(t, pk, ats) == (t, import_atts_spec(s, pk, ats).1),
    decreases ats.len(),
{
    if ats.len() == 0 {
    } else {
        let a = ats[0];
        let root = root_or_zero(a.root);
        let d = check_att_store(s, pk, a.source, a.target, root);
        if d == AttDecision::Valid {
            let s1 = store_insert_att(s, pk, a.source, a.target, root);
            lemma_insert_att_preserves_inv(s, pk, a.source, a.target, root);
            lemma_import_atts_extends(s1, pk, ats.drop_first());
            lemma_extends_trans(s1, import_atts_spec(s1, pk, ats.drop_first()).0, t);
            let i = validator_index(s, pk);
            assert(s1[i].atts == s[i].atts.push(AttV { source: a.source, target: a.target, root }));
            assert(s1[i].atts[s[i].atts.len() as int] == (AttV {
                source: a.source,
                target: a.target,
                root,
            }));
            lemma_validator_index_is(s1, pk, i);
            lemma_att_reads_same(s1, t, pk, a.source, a.target, root);
            lemma_reimport_atts(s1, t, pk, ats.drop_first());
        } else if d == AttDecision::SameData {
            lemma_import_atts_extends(s, pk, ats.drop_first());
            lemma_extends_trans(s, import_atts_spec(s, pk, ats.drop_first()).0, t);
            let e = entry_of(s, pk);
            lemma_att_at_target_props(e.atts, a.target);
            let x = att_at_target(e.atts, a.target).unwrap();
            assert(x.root == root && x.target == a.target);
            assert(entry_inv(e)) by {
                let i = validator_index(s, pk);
                assert(s[i] == e);
            }
            // The lookup at the recorded target pins the verdict, whatever
            // the replayed source is.
            lemma_same_target_decides(s, t, pk, a.source, a.target, root, x);
            assert(check_att_store(t, pk, a.source, a.target, root) == AttDecision::SameData);
            lemma_reimport_atts(s, t, pk, ats.drop_first());
        } else {
            assert(t == s);
        }
    }
}

/// When the same-target record matches the root, the verdict is `SameData`
/// whatever the new source is (the lookup precedes the surround checks).
proof fn lemma_same_target_decides(
    s: StoreV,
    t: StoreV,
    pk: Seq<u8>,
    src: int,
    tgt: int,
    root: Seq<u8>,
    x: AttV,
)
    requires
        store_inv(s),
        store_inv(t),
        store_extends(s, t),
        has_validator(s, pk),
        src <= tgt,
        !crate::checker::bound_source_violation(entry_of(s, pk).bound, src),
        !crate::checker::bound_target_violation(entry_of(s, pk).bound, tgt),
        exists|n: int| 0 <= n < entry_of(s, pk).atts.len() && entry_of(s, pk).atts[n] == x,
        x.target == tgt,
        x.root == root,
    ensures
        check_att_store(t, pk, src, tgt, root) == AttDecision::SameData,
{
    let i = validator_index(s, pk);
    assert(0 <= i < s.len() && s[i].pubkey == pk);
    assert(t[i].pubkey == pk);
    lemma_validator_index_is(t, pk, i);
    let n = choose|n: int| 0 <= n < entry_of(s, pk).atts.len() && entry_of(s, pk).atts[n] == x;
    assert(t[i].atts[n] == x);
    crate::checker::lemma_att_at_target_unique(t[i].atts, tgt, n);
    assert(entry_inv(t[i]));
    assert(t[i].bound == s[i].bound);
}

/// Importing one Complete record a second time, from any store that extends
/// its final state, changes nothing and repeats the verdict.
proof fn lemma_reimport_rec(s: StoreV, t: StoreV, rec: CRecV)
    requires
        store_inv(s),
        store_inv(t),
        store_extends(import_complete_rec_spec(s, rec).0, t),
        import_complete_rec_spec(s, rec).1 is Some ==> t == import_complete_rec_spec(s, rec).0,
    ensures
        import_complete_rec_spec(t, rec) == (t, import_complete_rec_spec(s, rec).1),
{
    let pk = rec.pubkey;
    match try_register(s, pk) {
        None => {
            assert(t == s);
        },
        Some(sa) => {
            if !has_validator(s, pk) {
                lemma_register_preserves_inv(s, pk);
            }
            assert(store_inv(sa));
            lemma_import_blocks_extends(sa, pk, rec.blocks);
            let br = import_blocks_spec(sa, pk, rec.blocks);
            // The key is registered in `t`.
            assert(has_validator(sa, pk)) by {
                if has_validator(s, pk) {
                } else {
                    assert(sa[s.len() as int].pubkey == pk);
                }
            }
            if br.1 is Some {
                assert(t == br.0);
                let w = choose|w: int| 0 <= w < sa.len() && sa[w].pubkey == pk;
                assert(br.0[w].pubkey == pk);
                assert(t[w].pubkey == pk);
                assert(has_validator(t, pk));
                assert(try_register(t, pk) == Some(t));
                lemma_reimport_blocks(sa, t, pk, rec.blocks);
            } else {
                lemma_import_atts_extends(br.0, pk, rec.atts);
                let ar = import_atts_spec(br.0, pk, rec.atts);
                lemma_extends_trans(br.0, ar.0, t);
                let w = choose|w: int| 0 <= w < sa.len() && sa[w].pubkey == pk;
                assert(br.0[w].pubkey == pk);
                assert(t[w].pubkey == pk);
                assert(has_validator(t, pk));
                assert(try_register(t, pk) == Some(t));
                lemma_reimport_blocks(sa, t, pk, rec.blocks);
                lemma_reimport_atts(br.0, t, pk, rec.atts);
            }
        },
    }
}

/// Importing a Complete document a second time, from any store that extends
/// its final state, changes nothing and repeats the verdict.
proof fn lemma_reimport_complete(s: StoreV, t: StoreV, recs: Seq<CRecV>)
    requires
        store_inv(s),
        store_inv(t),
        store_extends(import_complete_spec(s, recs).0, t),
        import_complete_spec(s, recs).1 is Some ==> t == import_complete_spec(s, recs).0,
    ensures
        import_complete_spec(t, recs) == (t, import_complete_spec(s, recs).1),
    decreases recs.len(),
{
    if recs.len() == 0 {
    } else {
        let r0 = import_complete_rec_spec(s, recs[0]);
        lemma_import_rec_extends(s, recs[0]);
        if r0.1 is Some {
            lemma_reimport_rec(s, t, recs[0]);
        } else {
            lemma_import_complete_extends(r0.0, recs.drop_first());
            lemma_extends_trans(
                r0.0,
                import_complete_spec(r0.0, recs.drop_first()).0,
                t,
            );
            lemma_reimport_rec(s, t, recs[0]);
            lemma_reimport_complete(r0.0, t, recs.drop_first());
        }
    }
}

/// A successful batch registration preserves the invariant.
proof fn lemma_register_chain_inv(s: StoreV, pks: Seq<Seq<u8>>)
    requires
        store_inv(s),
    ensures
        match register_chain(s, pks) {
            Some(s1) => store_inv(s1),
            None => true,
        },
    decreases pks.len(),
{
    if pks.len() > 0 {
        match try_register(s, pks[0]) {
            None => {},
            Some(sa) => {
                if !has_validator(s, pks[0]) {
                    lemma_register_preserves_inv(s, pks[0]);
                }
                lemma_register_chain_inv(sa, pks.drop_first());
            },
        }
    }
}

/// Registering keys that are all present changes nothing.
proof fn lemma_register_chain_noop(s: StoreV, pks: Seq<Seq<u8>>)
    requires
        forall|k: int| 0 <= k < pks.len() ==> has_validator(s, #[trigger] pks[k]),
    ensures
        register_chain(s, pks) == Some(s),
    decreases pks.len(),
{
    if pks.len() > 0 {
        assert(has_validator(s, pks[0]));
        lemma_register_chain_noop(s, pks.drop_first());
    }
}

/// Raising lower bounds keeps every validator in place, with its history,
/// and never lowers a bound.
proof fn lemma_apply_bounds_shape(s: StoreV, recs: Seq<MRecV>)
    requires
        store_inv(s),
    ensures
        ({
            let t = apply_bounds_spec(s, recs);
            &&& store_inv(t)
            &&& t.len() == s.len()
            &&& forall|j: int|
                0 <= j < s.len() ==> (#[trigger] t[j]).pubkey == s[j].pubkey && t[j].blocks
                    == s[j].blocks && t[j].atts == s[j].atts && crate::store::opt_bound_leq(
                    s[j].bound,
                    t[j].bound,
                )
        }),
    decreases recs.len(),
{
    if recs.len() > 0 {
        let s1 = store_update_bound(s, recs[0].pubkey, mrec_bound(recs[0]));
        crate::store::lemma_update_bound_preserves_inv(s, recs[0].pubkey, mrec_bound(recs[0]));
        lemma_apply_bounds_shape(s1, recs.drop_first());
        let t = apply_bounds_spec(s1, recs.drop_first());
        assert forall|j: int| 0 <= j < s.len() implies (#[trigger] t[j]).pubkey == s[j].pubkey
            && t[j].blocks == s[j].blocks && t[j].atts == s[j].atts
            && crate::store::opt_bound_leq(s[j].bound, t[j].bound) by {
            assert(s1[j].pubkey == s[j].pubkey && s1[j].blocks == s[j].blocks && s1[j].atts
                == s[j].atts);
            assert(crate::store::opt_bound_leq(s[j].bound, s1[j].bound)) by {
                if has_validator(s, recs[0].pubkey) && j == validator_index(s, recs[0].pubkey) {
                    match s[j].bound {
                        Some(x) => {
                            lemma_bound_update(x, mrec_bound(recs[0]));
                        },
                        None => {},
                    }
                }
            }
            if s[j].bound is Some {
                crate::lower_bound::lemma_bound_leq_trans(
                    s[j].bound.unwrap(),
                    s1[j].bound.unwrap(),
                    t[j].bound.unwrap(),
                );
            }
        }
    }
}

/// After raising bounds from a document, every record's demand is absorbed.
proof fn lemma_apply_bounds_absorbs(s: StoreV, recs: Seq<MRecV>)
    requires
        store_inv(s),
        forall|k: int| 0 <= k < recs.len() ==> has_validator(s, (#[trigger] recs[k]).pubkey),
    ensures
        ({
            let t = apply_bounds_spec(s, recs);
            forall|k: int|
                0 <= k < recs.len() ==> {
                    let bd = entry_of(t, (#[trigger] recs[k]).pubkey).bound;
                    bd is Some && bound_leq(mrec_bound(recs[k]), bd.unwrap())
                }
        }),
    decreases recs.len(),
{
    if recs.len() > 0 {
        let pk0 = recs[0].pubkey;
        let b0 = mrec_bound(recs[0]);
        let s1 = store_update_bound(s, pk0, b0);
        crate::store::lemma_update_bound_preserves_inv(s, pk0, b0);
        let i0 = validator_index(s, pk0);
        assert(s1[i0].bound == Some(bound_update(bound_or_default(s[i0].bound), b0)));
        lemma_bound_update(bound_or_default(s[i0].bound), b0);
        assert forall|k: int| 0 <= k < recs.drop_first().len() implies has_validator(
            s1,
            (#[trigger] recs.drop_first()[k]).pubkey,
        ) by {
            assert(recs.drop_first()[k] == recs[k + 1]);
            let w = choose|w: int| 0 <= w < s.len() && s[w].pubkey == recs[k + 1].pubkey;
            assert(s1[w].pubkey == recs[k + 1].pubkey);
        }
        lemma_apply_bounds_absorbs(s1, recs.drop_first());
        let t = apply_bounds_spec(s1, recs.drop_first());
        lemma_apply_bounds_shape(s1, recs.drop_first());
        assert forall|k: int| 0 <= k < recs.len() implies {
            let bd = entry_of(t, (#[trigger] recs[k]).pubkey).bound;
            bd is Some && bound_leq(mrec_bound(recs[k]), bd.unwrap())
        } by {
            if k == 0 {
                assert(s1[i0].pubkey == pk0);
                lemma_validator_index_is(s1, pk0, i0);
                assert(t[i0].pubkey == pk0);
                lemma_validator_index_is(t, pk0, i0);
                assert(crate::store::opt_bound_leq(s1[i0].bound, t[i0].bound));
                crate::lower_bound::lemma_bound_leq_trans(
                    b0,
                    s1[i0].bound.unwrap(),
                    t[i0].bound.unwrap(),
                );
            } else {
                assert(recs.drop_first()[k - 1] == recs[k]);
            }
        }
    }
}

/// Raising bounds that are already absorbed changes nothing.
proof fn lemma_apply_bounds_noop(s: StoreV, recs: Seq<MRecV>)
    requires
        store_inv(s),
        forall|k: int|
            0 <= k < recs.len() ==> {
                let bd = entry_of(s, (#[trigger] recs[k]).pubkey).bound;
                has_validator(s, recs[k].pubkey) && bd is Some && bound_leq(
                    mrec_bound(recs[k]),
                    bd.unwrap(),
                )
            },
    ensures
        apply_bounds_spec(s, recs) == s,
    decreases recs.len(),
{
    if recs.len() > 0 {
        let pk0 = recs[0].pubkey;
        let b0 = mrec_bound(recs[0]);
        let i0 = validator_index(s, pk0);
        let x = entry_of(s, pk0).bound.unwrap();
        lemma_bound_update(x, b0);
        assert(bound_update(bound_or_default(s[i0].bound), b0) == x);
        let s1 = store_update_bound(s, pk0, b0);
        assert(s1 =~= s) by {
            assert(s1[i0] == (ValidatorV { bound: Some(x), ..s[i0] }));
            assert(s1[i0] == s[i0]);
        }
        assert forall|k: int| 0 <= k < recs.drop_first().len() implies {
            let bd = entry_of(s, (#[trigger] recs.drop_first()[k]).pubkey).bound;
            has_validator(s, recs.drop_first()[k].pubkey) && bd is Some && bound_leq(
                mrec_bound(recs.drop_first()[k]),
                bd.unwrap(),
            )
        } by {
            assert(recs.drop_first()[k] == recs[k + 1]);
        }
        lemma_apply_bounds_noop(s, recs.drop_first());
    }
}

/// Importing the same document twice is idempotent: the second import
/// leaves the store exactly as the first left it, with the same outcome.
pub proof fn lemma_import_idempotent(s: StoreV, doc: IDocV, gvr: Seq<u8>)
    requires
        store_inv(s),
    ensures
        ({
            let (s1, r1) = import_spec(s, doc, gvr);
            import_spec(s1, doc, gvr) == (s1, r1)
        }),
{
    if doc.meta.version != crate::SUPPORTED_INTERCHANGE_FORMAT_VERSION as int {
    } else if doc.meta.gvr != gvr {
    } else {
        match doc.data {
            IDataV::Minimal(recs) => {
                if exists|i: int| 0 <= i < recs.len() && mrec_inconsistent(#[trigger] recs[i]) {
                } else {
                    let pks = recs.map_values(|r: MRecV| r.pubkey);
                    match register_chain(s, pks) {
                        None => {},
                        Some(sreg) => {
                            lemma_register_chain_inv(s, pks);
                            crate::store::lemma_register_chain_props(s, pks);
                            assert forall|k: int| 0 <= k < recs.len() implies has_validator(
                                sreg,
                                (#[trigger] recs[k]).pubkey,
                            ) by {
                                assert(pks[k] == recs[k].pubkey);
                            }
                            let s1 = apply_bounds_spec(sreg, recs);
                            lemma_apply_bounds_shape(sreg, recs);
                            lemma_apply_bounds_absorbs(sreg, recs);
                            assert forall|k: int| 0 <= k < pks.len() implies has_validator(
                                s1,
                                #[trigger] pks[k],
                            ) by {
                                let w = choose|w: int|
                                    0 <= w < sreg.len() && sreg[w].pubkey == recs[k].pubkey;
                                assert(s1[w].pubkey == pks[k]);
                            }
                            lemma_register_chain_noop(s1, pks);
                            assert forall|k: int| 0 <= k < recs.len() implies {
                                let bd = entry_of(s1, (#[trigger] recs[k]).pubkey).bound;
                                has_validator(s1, recs[k].pubkey) && bd is Some && bound_leq(
                                    mrec_bound(recs[k]),
                                    bd.unwrap(),
                                )
                            } by {
                                assert(pks[k] == recs[k].pubkey);
                            }
                            lemma_apply_bounds_noop(s1, recs);
                        },
                    }
                }
            },
            IDataV::Complete(recs) => {
                lemma_import_complete_extends(s, recs);
                let res = import_complete_spec(s, recs);
                lemma_extends_refl(res.0);
                lemma_reimport_complete(s, res.0, recs);
            },
        }
    }
}

} // verus!
