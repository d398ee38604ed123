//! A minimal deterministic key-derived state store.
//!
//! Each caller identity owns exactly one counter record, kept at a storage
//! location derived deterministically from a fixed label and the identity.
//! The record is created exactly once, may be overwritten by its owner
//! thereafter, and every successful transition yields one notification.

pub mod errors;
pub mod events;
pub mod identity;
pub mod location;
pub mod store;
