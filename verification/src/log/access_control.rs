//! What may be appended to a log.
use crate::log::identity::{Identity, IdentityModel};
use crate::log::identity_provider::IdentityProvider;
use vstd::prelude::*;

verus! {

/// An entry of a log.
pub trait LogEntry {
    /// The entry's payload.
    spec fn payload_bytes(&self) -> Seq<u8>;

    /// The identity of whoever wrote the entry.
    spec fn writer(&self) -> IdentityModel;

    /// The entry's payload.
    fn get_payload(&self) -> (r: &[u8])
        ensures
            r@ == self.payload_bytes(),
    ;

    /// The identity of whoever wrote the entry.
    fn get_identity(&self) -> (r: Identity)
        ensures
            r@ == self.writer(),
    ;
}

/// What else is known when an entry is to be appended.
pub trait CanAppendAdditionalContext {
    /// The entries of the log.
    type Entry: LogEntry;

    /// The entries of the log.
    fn get_log_entries(&self) -> Vec<Self::Entry>;
}

/// Decides whether an entry may be appended.
pub trait CanAppend {
    /// Refuses an entry that may not be appended, with the reason.
    fn can_append<E: LogEntry, P: IdentityProvider, C: CanAppendAdditionalContext>(
        &self,
        entry: &E,
        identity_provider: &P,
        context: &C,
    ) -> Result<(), String>;
}

} // verus!
