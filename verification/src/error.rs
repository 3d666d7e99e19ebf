//! Errors of the policy engine.

use vstd::prelude::*;
use crate::approval::{approval_error_text, ApprovalError};
use crate::relationship::{relationship_error_text, RelationshipError};
use crate::text::append_str;

verus! {

/// Errors of the policy engine.
#[derive(Debug, PartialEq)]
pub enum Error {
    PolicyNotFound(String),
    EvaluationError(String),
    CompilationError(String),
    ParseError(String),
    IoError(String),
    SerializationError(String),
    /// The evaluation context has no approval store
    NoApprovalStore,
    /// The evaluation context has no relationship store
    NoRelationshipStore,
    /// An error of the approval store
    Approval(ApprovalError),
    /// An error of the relationship store
    Relationship(RelationshipError),
}

/// The message of an error.
pub open spec fn error_text(e: Error) -> Seq<char> {
    match e {
        Error::PolicyNotFound(m) => "Policy not found: "@ + m@,
        Error::EvaluationError(m) => "Evaluation error: "@ + m@,
        Error::CompilationError(m) => "Compilation error: "@ + m@,
        Error::ParseError(m) => "Parse error: "@ + m@,
        Error::IoError(m) => "IO error: "@ + m@,
        Error::SerializationError(m) => "Serialization error: "@ + m@,
        Error::NoApprovalStore => "No approval store configured"@,
        Error::NoRelationshipStore => "No relationship store configured"@,
        Error::Approval(a) => approval_error_text(a),
        Error::Relationship(r) => relationship_error_text(r),
    }
}

impl Error {
    /// The error message.
    pub fn to_string(&self) -> (s: String)
        ensures
            s@ == error_text(*self),
    {
        let mut out = String::new();
        match self {
            Error::PolicyNotFound(m) => {
                append_str(&mut out, "Policy not found: ");
                append_str(&mut out, m.as_str());
            },
            Error::EvaluationError(m) => {
                append_str(&mut out, "Evaluation error: ");
                append_str(&mut out, m.as_str());
            },
            Error::CompilationError(m) => {
                append_str(&mut out, "Compilation error: ");
                append_str(&mut out, m.as_str());
            },
            Error::ParseError(m) => {
                append_str(&mut out, "Parse error: ");
                append_str(&mut out, m.as_str());
            },
            Error::IoError(m) => {
                append_str(&mut out, "IO error: ");
                append_str(&mut out, m.as_str());
            },
            Error::SerializationError(m) => {
                append_str(&mut out, "Serialization error: ");
                append_str(&mut out, m.as_str());
            },
            Error::NoApprovalStore => append_str(&mut out, "No approval store configured"),
            Error::NoRelationshipStore => append_str(&mut out, "No relationship store configured"),
            Error::Approval(a) => {
                out = a.to_string();
            },
            Error::Relationship(r) => {
                out = r.to_string();
            },
        }
        out
    }
}

} // verus!
