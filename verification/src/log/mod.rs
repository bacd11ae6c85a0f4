//! The append-only log: entries, identities and their keys.
pub mod access_control;
pub mod entry;
pub mod form;
pub mod identity;
pub mod identity_laws;
pub mod identity_provider;
pub mod lamport_clock;
pub mod laws;
pub mod traits;
