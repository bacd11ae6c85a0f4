//! The database's error type.
use crate::text;
use vstd::prelude::*;

verus! {

/// An error of the database, with its message.
#[derive(Debug)]
pub enum GuardianError {
    /// A store refused an operation.
    Store(String),
    /// Reading or writing stored data failed.
    Storage(String),
    /// Anything else.
    Other(String),
}

/// The model of an error: what kind it is and its message.
pub enum Failure {
    Store(Seq<char>),
    Storage(Seq<char>),
    Other(Seq<char>),
}

impl View for GuardianError {
    type V = Failure;

    open spec fn view(&self) -> Failure {
        match self {
            GuardianError::Store(message) => Failure::Store(message@),
            GuardianError::Storage(message) => Failure::Storage(message@),
            GuardianError::Other(message) => Failure::Other(message@),
        }
    }
}

/// The outcome of an operation, with the error taken by its model.
pub open spec fn outcome<T>(r: Result<T, GuardianError>) -> Result<T, Failure> {
    match r {
        Ok(value) => Ok(value),
        Err(e) => Err(e@),
    }
}

impl GuardianError {
    /// The error's message.
    pub fn message(&self) -> (r: &String)
        ensures
            r@ == match self@ {
                Failure::Store(message) => message,
                Failure::Storage(message) => message,
                Failure::Other(message) => message,
            },
    {
        match self {
            GuardianError::Store(message) => message,
            GuardianError::Storage(message) => message,
            GuardianError::Other(message) => message,
        }
    }
}

/// An error of no particular kind.
pub fn other(message: &str) -> (r: GuardianError)
    ensures
        r@ == Failure::Other(message@),
{
    GuardianError::Other(text::owned(message))
}

} // verus!
