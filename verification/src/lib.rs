//! Slashing protection for a proof-of-stake validator.
//!
//! The store records every block proposal and attestation a validator has
//! signed, and refuses to approve any new message that would conflict with
//! that history (a double proposal, a double vote, or a surround vote).
//! History can be moved between clients through the interchange format.

pub mod checker;
pub mod export;
pub mod hash256;
pub mod hex;
pub mod import;
pub mod interchange;
pub mod laws;
pub mod lower_bound;
pub mod pubkey;
pub mod safe;
pub mod secret_hash;
pub mod signed_attestation;
pub mod signed_block;
pub mod store;

pub use hash256::Hash256;
pub use interchange::{Interchange, InterchangeData, InterchangeError, InterchangeFormat, InterchangeMetadata};
pub use lower_bound::LowerBound;
pub use store::SlashingStore;
pub use pubkey::PublicKey;
pub use safe::{NotSafe, Safe};
pub use secret_hash::SecretHash;
pub use signed_attestation::{InvalidAttestation, SignedAttestation};
pub use signed_block::{InvalidBlock, SignedBlock};

use vstd::prelude::*;

verus! {

/// Supported version of the interchange format.
pub const SUPPORTED_INTERCHANGE_FORMAT_VERSION: u64 = 3;

} // verus!
