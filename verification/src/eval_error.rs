//! Errors raised while evaluating a value.

use vstd::prelude::*;

use crate::value::{SpecValue, Value};

verus! {

/// The model of an [`EvalError`].
pub enum SpecEvalError {
    /// A symbol had no binding in the environment.
    UnboundSymbol(Seq<char>),
    /// A builtin (named by the payload) was handed an argument of the wrong
    /// shape.
    WrongType(Seq<char>),
    /// `head` or `tail` (named by the payload) was handed an empty list.
    EmptyList(Seq<char>),
    /// `def` was asked to bind something that is not a symbol.
    NotASymbol,
    /// A call expression's first element is not a builtin.
    NotAFunction,
    /// `def` was called without a symbol to bind, or an operator without an
    /// operand it needs.
    MissingArguments,
    /// An arithmetic builtin was handed the payload, which is not a number.
    NonNumber(SpecValue),
    /// `/` was handed a zero operand.
    DivisionByZero,
    /// An arithmetic step left the 64-bit signed range.
    Overflow,
    /// An operator token that names no arithmetic builtin.
    InvalidOperator(Seq<char>),
    /// Evaluation was nested deeper than the evaluator admits.
    DepthLimit,
}

/// Why evaluating a value failed.
#[derive(Debug, Clone, PartialEq, Eq)]
pub enum EvalError {
    /// A symbol had no binding in the environment.
    UnboundSymbol(String),
    /// A builtin (named by the payload) was handed an argument of the wrong
    /// shape.
    WrongType(String),
    /// `head` or `tail` (named by the payload) was handed an empty list.
    EmptyList(String),
    /// `def` was asked to bind something that is not a symbol.
    NotASymbol,
    /// A call expression's first element is not a builtin.
    NotAFunction,
    /// `def` was called without a symbol to bind, or an operator without an
    /// operand it needs.
    MissingArguments,
    /// An arithmetic builtin was handed the payload, which is not a number.
    NonNumber(Value),
    /// `/` was handed a zero operand.
    DivisionByZero,
    /// An arithmetic step left the 64-bit signed range.
    Overflow,
    /// An operator token that names no arithmetic builtin.
    InvalidOperator(String),
    /// Evaluation was nested deeper than the evaluator admits.
    DepthLimit,
}

impl View for EvalError {
    type V = SpecEvalError;

    open spec fn view(&self) -> SpecEvalError {
        match self {
            EvalError::UnboundSymbol(s) => SpecEvalError::UnboundSymbol(s@),
            EvalError::WrongType(c) => SpecEvalError::WrongType(c@),
            EvalError::EmptyList(c) => SpecEvalError::EmptyList(c@),
            EvalError::NotASymbol => SpecEvalError::NotASymbol,
            EvalError::NotAFunction => SpecEvalError::NotAFunction,
            EvalError::MissingArguments => SpecEvalError::MissingArguments,
            EvalError::NonNumber(v) => SpecEvalError::NonNumber(v@),
            EvalError::DivisionByZero => SpecEvalError::DivisionByZero,
            EvalError::Overflow => SpecEvalError::Overflow,
            EvalError::InvalidOperator(o) => SpecEvalError::InvalidOperator(o@),
            EvalError::DepthLimit => SpecEvalError::DepthLimit,
        }
    }
}

/// The model of an evaluation outcome.
pub open spec fn eval_res_view(r: Result<Value, EvalError>) -> Result<SpecValue, SpecEvalError> {
    match r {
        Ok(v) => Ok(v@),
        Err(e) => Err(e@),
    }
}

/// The one-line diagnostic for an evaluation error.
pub open spec fn eval_error_message(e: SpecEvalError) -> Seq<char> {
    match e {
        SpecEvalError::UnboundSymbol(_) => "unbound symbol"@,
        SpecEvalError::WrongType(c) => "Wrong type passed to '"@ + c + "'"@,
        SpecEvalError::EmptyList(c) => "Function '"@ + c + "' passed {}"@,
        SpecEvalError::NotASymbol => "'def' cannot define non-symbol"@,
        SpecEvalError::NotAFunction => "First element is not a function"@,
        SpecEvalError::MissingArguments => "Missing arguments"@,
        SpecEvalError::NonNumber(v) => "Cannot operate on non-number: "@
            + crate::render::render_val(v),
        SpecEvalError::DivisionByZero => "Division by zero"@,
        SpecEvalError::Overflow => "Integer overflow"@,
        SpecEvalError::InvalidOperator(o) => "Invalid operator "@ + o,
        SpecEvalError::DepthLimit => "Evaluation nested too deeply"@,
    }
}

impl EvalError {
    /// The one-line diagnostic for this error.
    pub fn message(&self) -> (r: String)
        ensures
            r@ == eval_error_message(self@),
    {
        match self {
            EvalError::UnboundSymbol(_) => String::from_str("unbound symbol"),
            EvalError::WrongType(c) => {
                let mut s = String::from_str("Wrong type passed to '");
                s.append(c.as_str());
                s.append("'");
                s
            },
            EvalError::EmptyList(c) => {
                let mut s = String::from_str("Function '");
                s.append(c.as_str());
                s.append("' passed {}");
                s
            },
            EvalError::NotASymbol => String::from_str("'def' cannot define non-symbol"),
            EvalError::NotAFunction => String::from_str("First element is not a function"),
            EvalError::MissingArguments => String::from_str("Missing arguments"),
            EvalError::NonNumber(v) => {
                let mut s = String::from_str("Cannot operate on non-number: ");
                let rendered = v.render();
                s.append(rendered.as_str());
                s
            },
            EvalError::DivisionByZero => String::from_str("Division by zero"),
            EvalError::Overflow => String::from_str("Integer overflow"),
            EvalError::InvalidOperator(o) => {
                let mut s = String::from_str("Invalid operator ");
                s.append(o.as_str());
                s
            },
            EvalError::DepthLimit => String::from_str("Evaluation nested too deeply"),
        }
    }
}

} // verus!
