//! A time-locked inheritance vault ("dead man's switch") and a claim verifier,
//! written as verified state machines.
//!
//! The vault registry (`TtlVaultContract`) holds every vault, the owner and
//! beneficiary indexes and the contract configuration as plain values. Each
//! operation takes the ledger time and its arguments, updates the registry and
//! reports, in order, the authorizations and token transfers that the host
//! must perform, the events to publish, and its result.

pub mod storage_ttl;
pub mod types;
pub mod index;
pub mod model;
pub mod release;
pub mod registry;
pub mod zk_verifier;
pub mod laws;
