//! Errors of the document layer.
use crate::error::{Failure, GuardianError};
use crate::text;
use vstd::prelude::*;

verus! {

/// An error of the document layer.
#[derive(Debug)]
pub enum OdmError {
    InvalidSchema(String),
    Validation { field: String, message: String },
    DuplicateKey { field: String, value: String },
    InvalidQuery(String),
    InvalidUpdate(String),
    ImmutableField(String),
    UnsupportedConsistency(String),
    Storage(String),
    Guardian(GuardianError),
    Serialization(String),
}

/// The model of an error of the document layer.
pub enum OdmFailure {
    InvalidSchema(Seq<char>),
    Validation { field: Seq<char>, message: Seq<char> },
    DuplicateKey { field: Seq<char>, value: Seq<char> },
    InvalidQuery(Seq<char>),
    InvalidUpdate(Seq<char>),
    ImmutableField(Seq<char>),
    UnsupportedConsistency(Seq<char>),
    Storage(Seq<char>),
    Guardian(Failure),
    Serialization(Seq<char>),
}

impl View for OdmError {
    type V = OdmFailure;

    open spec fn view(&self) -> OdmFailure {
        match self {
            OdmError::InvalidSchema(m) => OdmFailure::InvalidSchema(m@),
            OdmError::Validation { field, message } => OdmFailure::Validation {
                field: field@,
                message: message@,
            },
            OdmError::DuplicateKey { field, value } => OdmFailure::DuplicateKey {
                field: field@,
                value: value@,
            },
            OdmError::InvalidQuery(m) => OdmFailure::InvalidQuery(m@),
            OdmError::InvalidUpdate(m) => OdmFailure::InvalidUpdate(m@),
            OdmError::ImmutableField(m) => OdmFailure::ImmutableField(m@),
            OdmError::UnsupportedConsistency(m) => OdmFailure::UnsupportedConsistency(m@),
            OdmError::Storage(m) => OdmFailure::Storage(m@),
            OdmError::Guardian(e) => OdmFailure::Guardian(e@),
            OdmError::Serialization(m) => OdmFailure::Serialization(m@),
        }
    }
}

/// The outcome of an operation, with the error taken by its model.
pub open spec fn outcome<T>(r: Result<T, OdmError>) -> Result<T, OdmFailure> {
    match r {
        Ok(value) => Ok(value),
        Err(e) => Err(e@),
    }
}

/// What an error says, in words.
pub open spec fn failure_text(e: OdmFailure) -> Seq<char> {
    match e {
        OdmFailure::InvalidSchema(m) => "invalid schema: "@ + m,
        OdmFailure::Validation { field, message } => "validation failed for field `"@ + field
            + "`: "@ + message,
        OdmFailure::DuplicateKey { field, value } => "duplicate value for unique field `"@ + field
            + "`: "@ + value,
        OdmFailure::InvalidQuery(m) => "invalid query: "@ + m,
        OdmFailure::InvalidUpdate(m) => "invalid update: "@ + m,
        OdmFailure::ImmutableField(m) => "immutable field `"@ + m + "` cannot be updated"@,
        OdmFailure::UnsupportedConsistency(m) => "unsupported consistency level: "@ + m,
        OdmFailure::Storage(m) => "storage error: "@ + m,
        OdmFailure::Guardian(e) => match e {
            Failure::Store(m) => m,
            Failure::Storage(m) => m,
            Failure::Other(m) => m,
        },
        OdmFailure::Serialization(m) => m,
    }
}

impl OdmError {
    /// What the error says, in words.
    pub fn render(&self) -> (r: String)
        ensures
            r@ == failure_text(self@),
    {
        match self {
            OdmError::InvalidSchema(m) => text::join2("invalid schema: ", m.as_str()),
            OdmError::Validation { field, message } => {
                let head: String = text::join3(
                    "validation failed for field `",
                    field.as_str(),
                    "`: ",
                );
                text::join2(head.as_str(), message.as_str())
            },
            OdmError::DuplicateKey { field, value } => {
                let head: String = text::join3(
                    "duplicate value for unique field `",
                    field.as_str(),
                    "`: ",
                );
                text::join2(head.as_str(), value.as_str())
            },
            OdmError::InvalidQuery(m) => text::join2("invalid query: ", m.as_str()),
            OdmError::InvalidUpdate(m) => text::join2("invalid update: ", m.as_str()),
            OdmError::ImmutableField(m) => text::join3(
                "immutable field `",
                m.as_str(),
                "` cannot be updated",
            ),
            OdmError::UnsupportedConsistency(m) => text::join2(
                "unsupported consistency level: ",
                m.as_str(),
            ),
            OdmError::Storage(m) => text::join2("storage error: ", m.as_str()),
            OdmError::Guardian(e) => e.message().clone(),
            OdmError::Serialization(m) => m.clone(),
        }
    }
}

} // verus!
