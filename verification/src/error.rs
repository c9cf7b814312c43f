//! Errors of the whole pipeline: parsing and evaluation.

use vstd::prelude::*;

use crate::eval_error::{EvalError, SpecEvalError};
use crate::value::{SpecValue, Value};

verus! {

/// The model of an [`Error`].
pub enum SpecError {
    /// The text (carried whole) does not match the grammar.
    ParseError(Seq<char>),
    /// A number token (the payload) does not fit a 64-bit signed integer.
    ParseNumber(Seq<char>),
    /// The parser produced no top-level unit at all.
    EmptyInput,
    /// The parser produced more than one top-level unit.
    MultipleTopLevelExpressions,
    /// Parsing succeeded and evaluation failed.
    Eval(SpecEvalError),
}

/// Why processing one line failed.
#[derive(Debug, Clone, PartialEq, Eq)]
pub enum Error {
    /// The text (carried whole) does not match the grammar.
    ParseError(String),
    /// A number token (the payload) does not fit a 64-bit signed integer.
    ParseNumber(String),
    /// The parser produced no top-level unit at all.
    EmptyInput,
    /// The parser produced more than one top-level unit.
    MultipleTopLevelExpressions,
    /// Parsing succeeded and evaluation failed.
    Eval(EvalError),
}

impl View for Error {
    type V = SpecError;

    open spec fn view(&self) -> SpecError {
        match self {
            Error::ParseError(t) => SpecError::ParseError(t@),
            Error::ParseNumber(t) => SpecError::ParseNumber(t@),
            Error::EmptyInput => SpecError::EmptyInput,
            Error::MultipleTopLevelExpressions => SpecError::MultipleTopLevelExpressions,
            Error::Eval(e) => SpecError::Eval(e@),
        }
    }
}

/// The model of a processing outcome.
pub open spec fn res_view(r: Result<Value, Error>) -> Result<SpecValue, SpecError> {
    match r {
        Ok(v) => Ok(v@),
        Err(e) => Err(e@),
    }
}

/// The one-line diagnostic for a processing error.
pub open spec fn error_message(e: SpecError) -> Seq<char> {
    match e {
        SpecError::ParseError(t) => "Failed to parse input "@ + t,
        SpecError::ParseNumber(t) => "Failed to parse number from "@ + t,
        SpecError::EmptyInput => "Empty input"@,
        SpecError::MultipleTopLevelExpressions => "More than one top-level expression"@,
        SpecError::Eval(inner) => crate::eval_error::eval_error_message(inner),
    }
}

impl Error {
    /// The one-line diagnostic for this error.
    pub fn message(&self) -> (r: String)
        ensures
            r@ == error_message(self@),
    {
        match self {
            Error::ParseError(t) => {
                let mut s = String::from_str("Failed to parse input ");
                s.append(t.as_str());
                s
            },
            Error::ParseNumber(t) => {
                let mut s = String::from_str("Failed to parse number from ");
                s.append(t.as_str());
                s
            },
            Error::EmptyInput => String::from_str("Empty input"),
            Error::MultipleTopLevelExpressions => String::from_str(
                "More than one top-level expression",
            ),
            Error::Eval(inner) => inner.message(),
        }
    }
}

} // verus!
