//! Builtin operations as first-class values.
//!
//! A builtin is identified by a tag of the closed set below; two builtin
//! values are equal exactly when their tags are equal.

use vstd::prelude::*;

verus! {

/// The fixed set of primitive operations of the language.
#[derive(Clone, Copy, Debug, PartialEq, Eq, Structural)]
pub enum Builtin {
    /// `list`: wrap the arguments into a literal list.
    List,
    /// `head`: the first element of a literal list, as a one-element list.
    Head,
    /// `tail`: a literal list without its first element.
    Tail,
    /// `join`: concatenate literal lists.
    Join,
    /// `eval`: evaluate a literal list as a call expression.
    Eval,
    /// `def`: bind symbols in the environment.
    Def,
    /// `+`: sum of the operands.
    Add,
    /// `-`: negated sum of the operands.
    Sub,
    /// `*`: product of the operands.
    Mul,
    /// `/`: quotient of the first operand by each of the rest.
    Div,
}

/// A primitive operation as a value of the language.
///
/// Displays as the literal token `<function>`.
#[derive(Clone, Copy, Debug, PartialEq, Eq, Structural)]
pub struct Function(pub Builtin);

impl Function {
    /// The tag that identifies the operation.
    pub fn op(&self) -> (r: Builtin)
        ensures
            r == self.0,
    {
        self.0
    }
}

} // verus!
