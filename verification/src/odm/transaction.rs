//! Transactions: what consistency a write asks for.
use crate::clock;
use crate::ids;
use crate::ids::is_random_id;
use crate::odm::error::{outcome, OdmError, OdmFailure};
use crate::text;
use vstd::prelude::*;

verus! {

/// The consistency that an operation asks for.
///
/// Local atomic writes are validated, indexed and stored one at a time within
/// one collection. Replicated ones need a coordinator among peers.
#[derive(Clone, Copy, PartialEq, Eq, Structural, Debug)]
pub enum ConsistencyLevel {
    LocalAtomic,
    Replicated,
}

impl Default for ConsistencyLevel {
    fn default() -> (r: Self)
        ensures
            r == ConsistencyLevel::LocalAtomic,
    {
        ConsistencyLevel::LocalAtomic
    }
}

/// What identifies one transaction.
#[derive(PartialEq, Eq, Debug)]
pub struct TransactionContext {
    pub id: String,
    /// When it was started, in milliseconds since the Unix epoch.
    pub started_at: i64,
    pub consistency: ConsistencyLevel,
}

impl Clone for TransactionContext {
    fn clone(&self) -> (r: Self)
        ensures
            r == *self,
    {
        TransactionContext { id: self.id.clone(), ..*self }
    }
}

impl TransactionContext {
    /// A local atomic transaction that starts now.
    pub fn local() -> (r: TransactionContext)
        ensures
            is_random_id(r.id@),
            r.consistency == ConsistencyLevel::LocalAtomic,
    {
        TransactionContext {
            id: ids::random_id(),
            started_at: clock::now_millis(),
            consistency: ConsistencyLevel::LocalAtomic,
        }
    }

    /// A transaction with a consistency that starts now.
    pub fn with_consistency(consistency: ConsistencyLevel) -> (r: TransactionContext)
        ensures
            is_random_id(r.id@),
            r.consistency == consistency,
    {
        TransactionContext { consistency, ..TransactionContext::local() }
    }
}

/// Options of a write.
#[derive(Debug)]
pub struct WriteOptions {
    pub transaction: Option<TransactionContext>,
}

impl Clone for WriteOptions {
    fn clone(&self) -> (r: Self)
        ensures
            r == *self,
    {
        WriteOptions {
            transaction: match &self.transaction {
                Some(transaction) => Some(transaction.clone()),
                None => None,
            },
        }
    }
}

impl Default for WriteOptions {
    fn default() -> (r: Self)
        ensures
            r.transaction is None,
    {
        WriteOptions { transaction: None }
    }
}

/// Whether a write asks for a replicated transaction.
pub open spec fn asks_replication(options: WriteOptions) -> bool {
    options.transaction is Some && options.transaction->0.consistency
        == ConsistencyLevel::Replicated
}

/// What is wrong with the options of a write, if anything.
pub open spec fn options_failure(options: WriteOptions) -> Option<OdmFailure> {
    if asks_replication(options) {
        Some(
            OdmFailure::UnsupportedConsistency(
                "replicated transactions require a distributed coordinator; local atomic writes are available today"@,
            ),
        )
    } else {
        None
    }
}

/// Refuses options that ask for a consistency that is not available.
pub fn validate_write_options(options: &WriteOptions) -> (r: Result<(), OdmError>)
    ensures
        outcome(r) == crate::odm::schema::checked(options_failure(*options)),
{
    match &options.transaction {
        Some(transaction) => {
            if transaction.consistency == ConsistencyLevel::Replicated {
                return Err(
                    OdmError::UnsupportedConsistency(
                        text::owned(
                            "replicated transactions require a distributed coordinator; local atomic writes are available today",
                        ),
                    ),
                );
            }
        },
        None => {},
    }
    Ok(())
}

/// A write is refused exactly where it is part of a transaction that asks for replication.
pub proof fn lemma_refused_writes(options: &WriteOptions, r: Result<(), OdmError>)
    requires
        call_ensures(validate_write_options, (options,), r),
    ensures
        options.transaction is None ==> r is Ok,
        options.transaction is Some ==> (r is Ok <==> options.transaction->0.consistency
            == ConsistencyLevel::LocalAtomic),
        r is Err ==> r->Err_0 is UnsupportedConsistency,
{
}

} // verus!
