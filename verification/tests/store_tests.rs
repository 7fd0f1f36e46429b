use slashing_protection::hash256::Hash256;
use slashing_protection::pubkey::PublicKey;
use slashing_protection::safe::{NotSafe, Safe};
use slashing_protection::signed_attestation::InvalidAttestation;
use slashing_protection::signed_block::InvalidBlock;
use slashing_protection::store::SlashingStore;

fn pk(b: u8) -> PublicKey {
    PublicKey::from_bytes([b; 48])
}

fn root(b: u8) -> Hash256 {
    Hash256::from_bytes([b; 32])
}

#[test]
fn block_proposal_valid_then_same_then_double() {
    let mut store = SlashingStore::new();
    let v1 = pk(1);
    let r = root(0xAA);
    let r2 = root(0xBB);
    store.register_validator(&v1).unwrap();
    assert_eq!(
        store.check_and_insert_block_signing_root(&v1, 5, r),
        Ok(Safe::Valid)
    );
    assert_eq!(
        store.check_and_insert_block_signing_root(&v1, 5, r),
        Ok(Safe::SameData)
    );
    match store.check_and_insert_block_signing_root(&v1, 5, r2) {
        Err(NotSafe::InvalidBlock(InvalidBlock::DoubleBlockProposal(existing))) => {
            assert_eq!(existing.slot, 5);
            assert_eq!(existing.signing_root, r);
        },
        other => panic!("expected a double proposal, got {:?}", other),
    }
}

#[test]
fn attestation_surround_votes_are_rejected() {
    let mut store = SlashingStore::new();
    let v1 = pk(1);
    let r = root(0xAA);
    let r2 = root(0xBB);
    store.register_validator(&v1).unwrap();
    assert_eq!(
        store.check_and_insert_attestation_signing_root(&v1, 4, 8, r),
        Ok(Safe::Valid)
    );
    match store.check_and_insert_attestation_signing_root(&v1, 3, 9, r2) {
        Err(NotSafe::InvalidAttestation(InvalidAttestation::NewSurroundsPrev { prev })) => {
            assert_eq!(prev.source_epoch, 4);
            assert_eq!(prev.target_epoch, 8);
            assert_eq!(prev.signing_root, r);
        },
        other => panic!("expected new-surrounds-prev, got {:?}", other),
    }
    match store.check_and_insert_attestation_signing_root(&v1, 5, 7, r2) {
        Err(NotSafe::InvalidAttestation(InvalidAttestation::PrevSurroundsNew { prev })) => {
            assert_eq!(prev.source_epoch, 4);
            assert_eq!(prev.target_epoch, 8);
            assert_eq!(prev.signing_root, r);
        },
        other => panic!("expected prev-surrounds-new, got {:?}", other),
    }
}

#[test]
fn attestation_replay_and_double_vote() {
    let mut store = SlashingStore::new();
    let v1 = pk(1);
    let r = root(0xAA);
    let r2 = root(0xBB);
    store.register_validator(&v1).unwrap();
    assert_eq!(
        store.check_and_insert_attestation_signing_root(&v1, 4, 8, r),
        Ok(Safe::Valid)
    );
    assert_eq!(
        store.check_and_insert_attestation_signing_root(&v1, 4, 8, r),
        Ok(Safe::SameData)
    );
    match store.check_and_insert_attestation_signing_root(&v1, 5, 8, r2) {
        Err(NotSafe::InvalidAttestation(InvalidAttestation::DoubleVote(prev))) => {
            assert_eq!(prev.source_epoch, 4);
            assert_eq!(prev.target_epoch, 8);
            assert_eq!(prev.signing_root, r);
        },
        other => panic!("expected a double vote, got {:?}", other),
    }
}

#[test]
fn attestation_source_exceeds_target() {
    let mut store = SlashingStore::new();
    let v1 = pk(1);
    store.register_validator(&v1).unwrap();
    assert_eq!(
        store.check_and_insert_attestation_signing_root(&v1, 9, 8, root(0xAA)),
        Err(NotSafe::InvalidAttestation(InvalidAttestation::SourceExceedsTarget))
    );
}

#[test]
fn unregistered_validator_is_rejected() {
    let mut store = SlashingStore::new();
    let v1 = pk(1);
    match store.check_and_insert_block_signing_root(&v1, 5, root(0xAA)) {
        Err(NotSafe::UnregisteredValidator(p)) => assert_eq!(p, v1),
        other => panic!("expected unregistered, got {:?}", other),
    }
    match store.check_and_insert_attestation_signing_root(&v1, 4, 8, root(0xAA)) {
        Err(NotSafe::UnregisteredValidator(p)) => assert_eq!(p, v1),
        other => panic!("expected unregistered, got {:?}", other),
    }
    assert!(store.get_validator_id(&v1).is_err());
}

#[test]
fn lower_bound_rejects_blocks_at_or_below() {
    let mut store = SlashingStore::new();
    let v1 = pk(1);
    let r = root(0xAA);
    store.register_validator(&v1).unwrap();
    let bound = slashing_protection::LowerBound {
        block_proposal_slot: Some(100),
        attestation_source_epoch: None,
        attestation_target_epoch: None,
    };
    store.update_lower_bound(&v1, bound).unwrap();
    assert_eq!(
        store.check_and_insert_block_signing_root(&v1, 100, r),
        Err(NotSafe::InvalidBlock(InvalidBlock::SlotViolatesLowerBound {
            block_slot: 100,
            bound_slot: 100,
        }))
    );
    assert_eq!(
        store.check_and_insert_block_signing_root(&v1, 101, r),
        Ok(Safe::Valid)
    );
}

#[test]
fn lower_bound_rejects_attestations() {
    let mut store = SlashingStore::new();
    let v1 = pk(1);
    store.register_validator(&v1).unwrap();
    let bound = slashing_protection::LowerBound {
        block_proposal_slot: None,
        attestation_source_epoch: Some(10),
        attestation_target_epoch: Some(20),
    };
    store.update_lower_bound(&v1, bound).unwrap();
    assert_eq!(
        store.check_and_insert_attestation_signing_root(&v1, 9, 30, root(0xAA)),
        Err(NotSafe::InvalidAttestation(InvalidAttestation::SourceLessThanLowerBound {
            source_epoch: 9,
            bound_epoch: 10,
        }))
    );
    assert_eq!(
        store.check_and_insert_attestation_signing_root(&v1, 10, 20, root(0xAA)),
        Err(NotSafe::InvalidAttestation(InvalidAttestation::TargetLessThanOrEqLowerBound {
            target_epoch: 20,
            bound_epoch: 20,
        }))
    );
    assert_eq!(
        store.check_and_insert_attestation_signing_root(&v1, 10, 21, root(0xAA)),
        Ok(Safe::Valid)
    );
}

#[test]
fn invalid_results_leave_the_store_unchanged() {
    let mut store = SlashingStore::new();
    let v1 = pk(1);
    let r = root(0xAA);
    store.register_validator(&v1).unwrap();
    store
        .check_and_insert_block_signing_root(&v1, 5, r)
        .unwrap();
    store
        .check_and_insert_attestation_signing_root(&v1, 4, 8, r)
        .unwrap();
    let before = store.export_interchange_info(root(0)).unwrap();
    // A double proposal, a double vote, and a surround all fail ...
    store
        .check_and_insert_block_signing_root(&v1, 5, root(0xBB))
        .unwrap_err();
    store
        .check_and_insert_attestation_signing_root(&v1, 5, 8, root(0xBB))
        .unwrap_err();
    store
        .check_and_insert_attestation_signing_root(&v1, 3, 9, root(0xBB))
        .unwrap_err();
    // ... and none of them changed what the store exports.
    let after = store.export_interchange_info(root(0)).unwrap();
    assert_eq!(before, after);
}

#[test]
fn registration_is_idempotent() {
    let mut store = SlashingStore::new();
    let v1 = pk(1);
    let v2 = pk(2);
    store.register_validator(&v1).unwrap();
    store.register_validator(&v1).unwrap();
    store.register_validators(&vec![v1, v2, v2]).unwrap();
    assert_eq!(store.num_validator_rows(), Ok(2));
    let id1 = store.get_validator_id(&v1).unwrap();
    let id2 = store.get_validator_id(&v2).unwrap();
    assert_ne!(id1, id2);
}

#[test]
fn lower_bound_rows_are_counted() {
    let mut store = SlashingStore::new();
    let v1 = pk(1);
    let v2 = pk(2);
    store.register_validator(&v1).unwrap();
    store.register_validator(&v2).unwrap();
    assert_eq!(store.num_lower_bound_rows(), Ok(0));
    let bound = slashing_protection::LowerBound {
        block_proposal_slot: Some(7),
        attestation_source_epoch: None,
        attestation_target_epoch: None,
    };
    store.update_lower_bound(&v1, bound).unwrap();
    assert_eq!(store.num_lower_bound_rows(), Ok(1));
    assert_eq!(store.get_lower_bound(&v2), Ok(None));
}
