use slashing_protection::hash256::Hash256;
use slashing_protection::interchange::{
    CompleteInterchangeData, Interchange, InterchangeAttestation, InterchangeBlock,
    InterchangeData, InterchangeError, InterchangeFormat, InterchangeMetadata,
    MinimalInterchangeData,
};
use slashing_protection::pubkey::PublicKey;
use slashing_protection::safe::Safe;
use slashing_protection::store::SlashingStore;
use slashing_protection::SUPPORTED_INTERCHANGE_FORMAT_VERSION;

fn pk(b: u8) -> PublicKey {
    PublicKey::from_bytes([b; 48])
}

fn root(b: u8) -> Hash256 {
    Hash256::from_bytes([b; 32])
}

fn gvr() -> Hash256 {
    root(0x42)
}

fn minimal_doc(records: Vec<MinimalInterchangeData>) -> Interchange {
    Interchange {
        metadata: InterchangeMetadata {
            interchange_format: InterchangeFormat::Minimal,
            interchange_format_version: SUPPORTED_INTERCHANGE_FORMAT_VERSION,
            genesis_validators_root: gvr(),
        },
        data: InterchangeData::Minimal(records),
    }
}

fn minimal_record(
    key: PublicKey,
    slot: Option<u64>,
    src: Option<u64>,
    tgt: Option<u64>,
) -> MinimalInterchangeData {
    MinimalInterchangeData {
        pubkey: key,
        last_signed_block_slot: slot,
        last_signed_attestation_source_epoch: src,
        last_signed_attestation_target_epoch: tgt,
    }
}

#[test]
fn unsupported_version_is_rejected() {
    let mut store = SlashingStore::new();
    let mut doc = minimal_doc(vec![]);
    doc.metadata.interchange_format_version = 2;
    assert_eq!(
        store.import_interchange_info(&doc, gvr()),
        Err(InterchangeError::UnsupportedVersion(2))
    );
}

#[test]
fn genesis_validators_mismatch_is_rejected() {
    let mut store = SlashingStore::new();
    let doc = minimal_doc(vec![]);
    let other = root(0x43);
    assert_eq!(
        store.import_interchange_info(&doc, other),
        Err(InterchangeError::GenesisValidatorsMismatch {
            client: other,
            interchange_file: gvr(),
        })
    );
}

#[test]
fn minimal_import_raises_lower_bounds_monotonically() {
    let mut store = SlashingStore::new();
    let v1 = pk(1);
    let doc1 = minimal_doc(vec![minimal_record(v1, Some(200), Some(50), Some(60))]);
    store.import_interchange_info(&doc1, gvr()).unwrap();
    let doc2 = minimal_doc(vec![minimal_record(v1, Some(150), Some(40), Some(60))]);
    store.import_interchange_info(&doc2, gvr()).unwrap();
    let bound = store.get_lower_bound(&v1).unwrap().unwrap();
    assert_eq!(bound.block_proposal_slot, Some(200));
    assert_eq!(bound.attestation_source_epoch, Some(50));
    assert_eq!(bound.attestation_target_epoch, Some(60));
}

#[test]
fn minimal_import_source_without_target_is_inconsistent() {
    let mut store = SlashingStore::new();
    let doc = minimal_doc(vec![minimal_record(pk(1), None, Some(7), None)]);
    assert_eq!(
        store.import_interchange_info(&doc, gvr()),
        Err(InterchangeError::MinimalAttestationSourceAndTargetInconsistent)
    );
    // The failed import registered nothing.
    assert_eq!(store.num_validator_rows(), Ok(0));
}

#[test]
fn empty_complete_export_round_trips() {
    let store = SlashingStore::new();
    let doc = store.export_interchange_info(gvr()).unwrap();
    assert_eq!(
        doc.metadata.interchange_format,
        InterchangeFormat::Complete
    );
    match &doc.data {
        InterchangeData::Complete(recs) => assert!(recs.is_empty()),
        other => panic!("expected a complete document, got {:?}", other),
    }
    let mut fresh = SlashingStore::new();
    fresh.import_interchange_info(&doc, gvr()).unwrap();
    let v1 = pk(1);
    fresh.register_validator(&v1).unwrap();
    assert_eq!(
        fresh.check_and_insert_block_signing_root(&v1, 5, root(0xAA)),
        Ok(Safe::Valid)
    );
}

#[test]
fn complete_export_import_preserves_decisions() {
    let mut store = SlashingStore::new();
    let v1 = pk(3);
    let v2 = pk(1);
    store.register_validators(&vec![v1, v2]).unwrap();
    store
        .check_and_insert_block_signing_root(&v1, 5, root(0xAA))
        .unwrap();
    store
        .check_and_insert_attestation_signing_root(&v1, 4, 8, root(0xAA))
        .unwrap();
    store
        .check_and_insert_block_signing_root(&v2, 9, root(0xCC))
        .unwrap();
    store
        .check_and_insert_attestation_signing_root(&v2, 1, 2, root(0xCC))
        .unwrap();
    let doc = store.export_interchange_info(gvr()).unwrap();
    assert_eq!(doc.metadata.interchange_format, InterchangeFormat::Complete);
    // Records are ordered by public key.
    match &doc.data {
        InterchangeData::Complete(recs) => {
            assert_eq!(recs.len(), 2);
            assert_eq!(recs[0].pubkey, v2);
            assert_eq!(recs[1].pubkey, v1);
            assert_eq!(recs[1].signed_blocks[0].slot, 5);
            assert_eq!(recs[1].signed_blocks[0].signing_root, Some(root(0xAA)));
        },
        other => panic!("expected a complete document, got {:?}", other),
    }
    let mut fresh = SlashingStore::new();
    fresh.import_interchange_info(&doc, gvr()).unwrap();
    // The fresh store refuses and accepts the same messages.
    assert_eq!(
        fresh.check_and_insert_block_signing_root(&v1, 5, root(0xAA)),
        Ok(Safe::SameData)
    );
    assert!(fresh
        .check_and_insert_block_signing_root(&v1, 5, root(0xBB))
        .is_err());
    assert!(fresh
        .check_and_insert_attestation_signing_root(&v1, 3, 9, root(0xBB))
        .is_err());
    assert_eq!(
        fresh.check_and_insert_attestation_signing_root(&v2, 3, 4, root(0xDD)),
        Ok(Safe::Valid)
    );
}

#[test]
fn importing_the_same_document_twice_is_idempotent() {
    let v1 = pk(1);
    let doc = Interchange {
        metadata: InterchangeMetadata {
            interchange_format: InterchangeFormat::Complete,
            interchange_format_version: SUPPORTED_INTERCHANGE_FORMAT_VERSION,
            genesis_validators_root: gvr(),
        },
        data: InterchangeData::Complete(vec![CompleteInterchangeData {
            pubkey: v1,
            signed_blocks: vec![
                InterchangeBlock { slot: 5, signing_root: Some(root(0xAA)) },
                InterchangeBlock { slot: 6, signing_root: None },
            ],
            signed_attestations: vec![InterchangeAttestation {
                source_epoch: 4,
                target_epoch: 8,
                signing_root: Some(root(0xAA)),
            }],
        }]),
    };
    let mut store = SlashingStore::new();
    store.import_interchange_info(&doc, gvr()).unwrap();
    let once = store.export_interchange_info(gvr()).unwrap();
    store.import_interchange_info(&doc, gvr()).unwrap();
    let twice = store.export_interchange_info(gvr()).unwrap();
    assert_eq!(once, twice);
    // An absent signing root was stored as the all-zero hash.
    assert_eq!(
        store.check_and_insert_block_signing_root(&v1, 6, Hash256::zero()),
        Ok(Safe::SameData)
    );
}

#[test]
fn minimal_export_merges_history_maxima_with_bounds() {
    let mut store = SlashingStore::new();
    let v1 = pk(1);
    store.register_validator(&v1).unwrap();
    store
        .check_and_insert_block_signing_root(&v1, 10, root(0xAA))
        .unwrap();
    store
        .check_and_insert_block_signing_root(&v1, 7, root(0xBB))
        .unwrap();
    store
        .check_and_insert_attestation_signing_root(&v1, 4, 8, root(0xAA))
        .unwrap();
    let doc = minimal_doc(vec![minimal_record(v1, Some(3), Some(9), Some(2))]);
    store.import_interchange_info(&doc, gvr()).unwrap();
    let exported = store.export_interchange_info(gvr()).unwrap();
    assert_eq!(exported.metadata.interchange_format, InterchangeFormat::Minimal);
    match &exported.data {
        InterchangeData::Minimal(recs) => {
            assert_eq!(recs.len(), 1);
            assert_eq!(recs[0].pubkey, v1);
            assert_eq!(recs[0].last_signed_block_slot, Some(10));
            assert_eq!(recs[0].last_signed_attestation_source_epoch, Some(9));
            assert_eq!(recs[0].last_signed_attestation_target_epoch, Some(8));
        },
        other => panic!("expected a minimal document, got {:?}", other),
    }
}

#[test]
fn complete_import_aborts_at_the_first_conflict() {
    let v1 = pk(1);
    let doc = Interchange {
        metadata: InterchangeMetadata {
            interchange_format: InterchangeFormat::Complete,
            interchange_format_version: SUPPORTED_INTERCHANGE_FORMAT_VERSION,
            genesis_validators_root: gvr(),
        },
        data: InterchangeData::Complete(vec![CompleteInterchangeData {
            pubkey: v1,
            signed_blocks: vec![
                InterchangeBlock { slot: 5, signing_root: Some(root(0xAA)) },
                InterchangeBlock { slot: 5, signing_root: Some(root(0xBB)) },
                InterchangeBlock { slot: 6, signing_root: Some(root(0xCC)) },
            ],
            signed_attestations: vec![],
        }]),
    };
    let mut store = SlashingStore::new();
    match store.import_interchange_info(&doc, gvr()) {
        Err(InterchangeError::NotSafe(_)) => {},
        other => panic!("expected a safety failure, got {:?}", other),
    }
    // The record before the conflict was kept, the one after was not.
    assert_eq!(
        store.check_and_insert_block_signing_root(&v1, 5, root(0xAA)),
        Ok(Safe::SameData)
    );
    assert_eq!(
        store.check_and_insert_block_signing_root(&v1, 6, root(0xCC)),
        Ok(Safe::Valid)
    );
}
