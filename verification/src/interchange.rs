//! The interchange format: a client-agnostic document carrying a validator's
//! signing history, in a Complete or a Minimal form.

use vstd::prelude::*;

use crate::hash256::Hash256;
use crate::pubkey::PublicKey;
use crate::safe::{NotSafe, NotSafeV};

verus! {

/// The two forms a document can take.
#[derive(Clone, Copy, Debug, PartialEq, Eq)]
pub enum InterchangeFormat {
    /// The full list of signed blocks and attestations per validator.
    Complete,
    /// Only the last signed slot and epochs per validator.
    Minimal,
}

/// Model of a block record in a Complete document.
#[verifier::ext_equal]
pub ghost struct IBlockV {
    pub slot: int,
    pub root: Option<Seq<u8>>,
}

/// Model of an attestation record in a Complete document.
#[verifier::ext_equal]
pub ghost struct IAttV {
    pub source: int,
    pub target: int,
    pub root: Option<Seq<u8>>,
}

/// Model of one validator's record in a Complete document.
#[verifier::ext_equal]
pub ghost struct CRecV {
    pub pubkey: Seq<u8>,
    pub blocks: Seq<IBlockV>,
    pub atts: Seq<IAttV>,
}

/// Model of one validator's record in a Minimal document.
#[verifier::ext_equal]
pub ghost struct MRecV {
    pub pubkey: Seq<u8>,
    pub slot: Option<int>,
    pub source: Option<int>,
    pub target: Option<int>,
}

/// Model of a document's data body.
#[verifier::ext_equal]
pub ghost enum IDataV {
    Complete(Seq<CRecV>),
    Minimal(Seq<MRecV>),
}

/// Model of a document's metadata.
#[verifier::ext_equal]
pub ghost struct IMetaV {
    pub format: InterchangeFormat,
    pub version: int,
    pub gvr: Seq<u8>,
}

/// Model of a whole document.
#[verifier::ext_equal]
pub ghost struct IDocV {
    pub meta: IMetaV,
    pub data: IDataV,
}

/// The model of an optional signing root.
pub open spec fn opt_hash_view(o: Option<Hash256>) -> Option<Seq<u8>> {
    match o {
        Some(h) => Some(h@),
        None => None,
    }
}

/// A signed block as carried by a Complete document. The signing root is
/// optional; an absent root stands for the all-zero hash on import.
#[derive(Clone, Copy, Debug, PartialEq, Eq)]
pub struct InterchangeBlock {
    pub slot: u64,
    pub signing_root: Option<Hash256>,
}

impl View for InterchangeBlock {
    type V = IBlockV;

    open spec fn view(&self) -> IBlockV {
        IBlockV { slot: self.slot as int, root: opt_hash_view(self.signing_root) }
    }
}

/// A signed attestation as carried by a Complete document.
#[derive(Clone, Copy, Debug, PartialEq, Eq)]
pub struct InterchangeAttestation {
    pub source_epoch: u64,
    pub target_epoch: u64,
    pub signing_root: Option<Hash256>,
}

impl View for InterchangeAttestation {
    type V = IAttV;

    open spec fn view(&self) -> IAttV {
        IAttV {
            source: self.source_epoch as int,
            target: self.target_epoch as int,
            root: opt_hash_view(self.signing_root),
        }
    }
}

/// One validator's full history in a Complete document.
#[derive(Clone, Debug, PartialEq, Eq)]
pub struct CompleteInterchangeData {
    pub pubkey: PublicKey,
    pub signed_blocks: Vec<InterchangeBlock>,
    pub signed_attestations: Vec<InterchangeAttestation>,
}

impl View for CompleteInterchangeData {
    type V = CRecV;

    open spec fn view(&self) -> CRecV {
        CRecV {
            pubkey: self.pubkey@,
            blocks: self.signed_blocks@.map_values(|b: InterchangeBlock| b@),
            atts: self.signed_attestations@.map_values(|a: InterchangeAttestation| a@),
        }
    }
}

/// One validator's summary in a Minimal document.
#[derive(Clone, Copy, Debug, PartialEq, Eq)]
pub struct MinimalInterchangeData {
    pub pubkey: PublicKey,
    pub last_signed_block_slot: Option<u64>,
    pub last_signed_attestation_source_epoch: Option<u64>,
    pub last_signed_attestation_target_epoch: Option<u64>,
}

impl View for MinimalInterchangeData {
    type V = MRecV;

    open spec fn view(&self) -> MRecV {
        MRecV {
            pubkey: self.pubkey@,
            slot: crate::lower_bound::opt_view(self.last_signed_block_slot),
            source: crate::lower_bound::opt_view(self.last_signed_attestation_source_epoch),
            target: crate::lower_bound::opt_view(self.last_signed_attestation_target_epoch),
        }
    }
}

/// A document's metadata: the format, the format version, and the chain the
/// history belongs to.
#[derive(Clone, Copy, Debug, PartialEq, Eq)]
pub struct InterchangeMetadata {
    pub interchange_format: InterchangeFormat,
    pub interchange_format_version: u64,
    pub genesis_validators_root: Hash256,
}

impl View for InterchangeMetadata {
    type V = IMetaV;

    open spec fn view(&self) -> IMetaV {
        IMetaV {
            format: self.interchange_format,
            version: self.interchange_format_version as int,
            gvr: self.genesis_validators_root@,
        }
    }
}

/// A document's data body.
#[derive(Clone, Debug, PartialEq, Eq)]
pub enum InterchangeData {
    Complete(Vec<CompleteInterchangeData>),
    Minimal(Vec<MinimalInterchangeData>),
}

impl View for InterchangeData {
    type V = IDataV;

    open spec fn view(&self) -> IDataV {
        match self {
            InterchangeData::Complete(recs) => IDataV::Complete(
                recs@.map_values(|r: CompleteInterchangeData| r@),
            ),
            InterchangeData::Minimal(recs) => IDataV::Minimal(
                recs@.map_values(|r: MinimalInterchangeData| r@),
            ),
        }
    }
}

/// A whole interchange document.
#[derive(Clone, Debug, PartialEq, Eq)]
pub struct Interchange {
    pub metadata: InterchangeMetadata,
    pub data: InterchangeData,
}

impl View for Interchange {
    type V = IDocV;

    open spec fn view(&self) -> IDocV {
        IDocV { meta: self.metadata@, data: self.data@ }
    }
}

/// Why an import or export failed.
#[derive(Clone, Debug, PartialEq, Eq)]
pub enum InterchangeError {
    /// The document's format version is not the supported one.
    UnsupportedVersion(u64),
    /// The document belongs to another chain.
    GenesisValidatorsMismatch { interchange_file: Hash256, client: Hash256 },
    /// A Minimal record names a source without a target or vice versa.
    MinimalAttestationSourceAndTargetInconsistent,
    /// The storage layer failed.
    SQLError(String),
    /// A record conflicts with history already in the store.
    NotSafe(NotSafe),
}

/// Model of an import or export failure.
#[verifier::ext_equal]
pub ghost enum IErrV {
    UnsupportedVersion(int),
    GenesisValidatorsMismatch { interchange_file: Seq<u8>, client: Seq<u8> },
    MinimalAttestationSourceAndTargetInconsistent,
    Storage,
    NotSafe(NotSafeV),
}

impl View for InterchangeError {
    type V = IErrV;

    open spec fn view(&self) -> IErrV {
        match self {
            InterchangeError::UnsupportedVersion(v) => IErrV::UnsupportedVersion(*v as int),
            InterchangeError::GenesisValidatorsMismatch { interchange_file, client } => (
            IErrV::GenesisValidatorsMismatch {
                interchange_file: interchange_file@,
                client: client@,
            }),
            InterchangeError::MinimalAttestationSourceAndTargetInconsistent => (
            IErrV::MinimalAttestationSourceAndTargetInconsistent),
            InterchangeError::SQLError(_) => IErrV::Storage,
            InterchangeError::NotSafe(e) => IErrV::NotSafe(e@),
        }
    }
}

impl From<NotSafe> for InterchangeError {
    /// Wrap a safety verdict as an interchange failure.
    fn from(error: NotSafe) -> (r: Self)
        ensures
            r == InterchangeError::NotSafe(error),
    {
        InterchangeError::NotSafe(error)
    }
}

impl vstd::std_specs::convert::FromSpecImpl<NotSafe> for InterchangeError {
    open spec fn obeys_from_spec() -> bool {
        true
    }

    open spec fn from_spec(t: NotSafe) -> Self {
        InterchangeError::NotSafe(t)
    }
}

} // verus!
