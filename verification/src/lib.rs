//! A registry of medical-consent records.
//!
//! Authorized issuer identities mint consent records to themselves; owners
//! update, revoke, and transfer them, and every record keeps an append-only
//! audit trail. The registry is an explicit value handed to every operation:
//! the durable storage, identity authentication, clock, and event
//! notification that surround it in a deployment are the environment's
//! concern, so each operation takes the already-authenticated acting
//! identity — identities are plain `u64` values — and, where it stamps the
//! audit trail or judges validity, the current time, as plain arguments.
//! Every operation either completes with its whole effect or fails with a
//! structured error and leaves the registry untouched.

pub mod errors;
pub mod laws;
pub mod records;
pub mod registry;
pub mod seq_ops;

pub use errors::ContractError;
pub use records::{ConsentAction, ConsentHistoryEntry, ConsentMetadata, ConsentRecord};
pub use registry::PatientConsentToken;
