//! Verified core of a credential-issuance protocol: a registry of providers
//! and courses, Merkle-root commitments over allow-lists of recipients,
//! sorted-pair Merkle proof verification, and a one-shot token issuance
//! discipline that guarantees at most one credential per recipient.

pub mod hash;
pub mod merkle;
pub mod ledger;
pub mod records;
