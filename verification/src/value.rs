//! The value tree of the language and its mathematical model.
//!
//! A [`Value`] is an immutable tree: numbers, symbols, call expressions
//! (evaluated), literal lists (never auto-evaluated) and builtins. Its model
//! [`SpecValue`] replaces the executable containers by `Seq`, `int` and
//! `Seq<char>`, so that contracts can speak of the tree mathematically.

use vstd::prelude::*;

use crate::environment::Environment;
use crate::eval_error::{eval_res_view, EvalError};
use crate::function::{Builtin, Function};
use crate::qexpr::Qexpr;
use crate::semantics::spec_eval;
use crate::sexpr::Sexpr;

verus! {

/// The mathematical model of a [`Value`].
pub enum SpecValue {
    /// An integer.
    Num(int),
    /// A name, to be resolved against an environment.
    Sym(Seq<char>),
    /// A call expression: elements are evaluated left to right, then applied.
    Call(Seq<SpecValue>),
    /// A literal list: never evaluated on its own.
    List(Seq<SpecValue>),
    /// A primitive operation.
    Fun(Builtin),
}

/// A value of the language.
#[derive(Debug, PartialEq, Eq)]
pub enum Value {
    /// An integer.
    Num(i64),
    /// A name, to be resolved against an environment.
    Sym(String),
    /// A call expression.
    Sexpr(Sexpr),
    /// A literal list.
    Qexpr(Qexpr),
    /// A primitive operation; displays as `<function>`.
    Fun(Function),
}

impl View for Value {
    type V = SpecValue;

    open spec fn view(&self) -> SpecValue
        decreases self,
    {
        match self {
            Value::Num(n) => SpecValue::Num(*n as int),
            Value::Sym(s) => SpecValue::Sym(s@),
            Value::Sexpr(s) => SpecValue::Call(view_values(s.0@)),
            Value::Qexpr(q) => SpecValue::List(view_values(q.0@)),
            Value::Fun(f) => SpecValue::Fun(f.0),
        }
    }
}

/// The models of a sequence of values, element by element.
pub open spec fn view_values(s: Seq<Value>) -> Seq<SpecValue>
    decreases s,
{
    if s.len() == 0 {
        Seq::empty()
    } else {
        seq![s[0]@] + view_values(s.subrange(1, s.len() as int))
    }
}

/// `view_values` maps the view over the sequence pointwise.
pub proof fn lemma_view_values(s: Seq<Value>)
    ensures
        view_values(s).len() == s.len(),
        forall|i: int| 0 <= i < s.len() ==> view_values(s)[i] == #[trigger] s[i]@,
    decreases s.len(),
{
    if s.len() > 0 {
        let rest = s.subrange(1, s.len() as int);
        lemma_view_values(rest);
        assert(view_values(s) == seq![s[0]@] + view_values(rest));
        assert(view_values(s).len() == 1 + view_values(rest).len());
        assert forall|i: int| 0 <= i < s.len() implies view_values(s)[i] == s[i]@ by {
            if i == 0 {
                assert(view_values(s)[0] == s[0]@);
            } else {
                assert(view_values(s)[i] == view_values(rest)[i - 1]);
                assert(rest[i - 1] == s[i]);
            }
        }
    }
}

/// `view_values` distributes over concatenation.
pub proof fn lemma_view_values_push(s: Seq<Value>, v: Value)
    ensures
        view_values(s.push(v)) == view_values(s).push(v@),
{
    lemma_view_values(s.push(v));
    lemma_view_values(s);
    assert forall|i: int| 0 <= i < s.len() + 1 implies view_values(s.push(v))[i] == view_values(
        s,
    ).push(v@)[i] by {
        assert(view_values(s.push(v))[i] == s.push(v)[i]@);
        if i < s.len() {
            assert(s.push(v)[i] == s[i]);
            assert(view_values(s).push(v@)[i] == view_values(s)[i]);
            assert(view_values(s)[i] == s[i]@);
        } else {
            assert(s.push(v)[i] == v);
            assert(view_values(s).push(v@)[i] == v@);
        }
    }
    assert(view_values(s.push(v)) =~= view_values(s).push(v@));
}

/// `view_values` distributes over concatenation.
pub proof fn lemma_view_values_concat(a: Seq<Value>, b: Seq<Value>)
    ensures
        view_values(a + b) == view_values(a) + view_values(b),
{
    lemma_view_values(a);
    lemma_view_values(b);
    lemma_view_values(a + b);
    assert forall|i: int| 0 <= i < a.len() + b.len() implies view_values(a + b)[i] == (view_values(
        a,
    ) + view_values(b))[i] by {
        assert(view_values(a + b)[i] == (a + b)[i]@);
        if i < a.len() {
            assert((a + b)[i] == a[i]);
            assert(view_values(a)[i] == a[i]@);
        } else {
            assert((a + b)[i] == b[i - a.len()]);
            assert(view_values(b)[i - a.len()] == b[i - a.len()]@);
        }
    }
    assert(view_values(a + b) =~= view_values(a) + view_values(b));
}

/// `view_values` commutes with taking a subrange.
pub proof fn lemma_view_values_subrange(s: Seq<Value>, i: int, j: int)
    requires
        0 <= i <= j <= s.len(),
    ensures
        view_values(s.subrange(i, j)) == view_values(s).subrange(i, j),
{
    lemma_view_values(s);
    lemma_view_values(s.subrange(i, j));
    assert forall|k: int| 0 <= k < j - i implies view_values(s.subrange(i, j))[k] == view_values(
        s,
    ).subrange(i, j)[k] by {
        assert(view_values(s.subrange(i, j))[k] == s.subrange(i, j)[k]@);
        assert(s.subrange(i, j)[k] == s[i + k]);
        assert(view_values(s)[i + k] == s[i + k]@);
    }
    assert(view_values(s.subrange(i, j)) =~= view_values(s).subrange(i, j));
}

impl Value {
    /// Evaluate this value against `env` with an explicit nesting bound.
    ///
    /// A symbol is looked up (unbound fails), a number, a literal list and
    /// a builtin stand for themselves, and a call expression is reduced;
    /// `env` is left exactly as [`spec_eval`] says.
    pub fn eval_fuel(self, env: &mut Environment, fuel: u64) -> (r: Result<Value, EvalError>)
        ensures
            ({
                let (sr, senv) = spec_eval(self@, old(env)@, fuel as nat);
                eval_res_view(r) == sr && final(env)@ == senv
            }),
        decreases fuel, self, 1int,
    {
        match self {
            Value::Sym(s) => match env.get(s.as_str()) {
                Some(v) => Ok(v),
                None => Err(EvalError::UnboundSymbol(s)),
            },
            Value::Sexpr(sx) => sx.eval_fuel(env, fuel),
            v => Ok(v),
        }
    }

    /// Evaluate this value against `env` with the default nesting bound.
    pub fn eval(self, env: &mut Environment) -> (r: Result<Value, EvalError>)
        ensures
            ({
                let (sr, senv) = spec_eval(self@, old(env)@, crate::DEFAULT_FUEL as nat);
                eval_res_view(r) == sr && final(env)@ == senv
            }),
    {
        self.eval_fuel(env, crate::DEFAULT_FUEL)
    }
}

impl Clone for Value {
    /// A deep copy with the same model.
    fn clone(&self) -> (r: Self)
        ensures
            r@ == self@,
        decreases self,
    {
        match self {
            Value::Num(n) => Value::Num(*n),
            Value::Sym(s) => Value::Sym(s.clone()),
            Value::Sexpr(s) => Value::Sexpr(s.clone()),
            Value::Qexpr(q) => Value::Qexpr(q.clone()),
            Value::Fun(f) => Value::Fun(Function(f.0)),
        }
    }
}

/// A deep copy of a vector of values, with the same models.
pub(crate) fn clone_values(v: &Vec<Value>) -> (r: Vec<Value>)
    ensures
        view_values(r@) == view_values(v@),
        r@.len() == v@.len(),
    decreases v@,
{
    let mut out: Vec<Value> = Vec::new();
    let mut i: usize = 0;
    proof {
        lemma_view_values(v@);
    }
    while i < v.len()
        invariant
            i <= v@.len(),
            out@.len() == i,
            forall|j: int| 0 <= j < v@.len() ==> view_values(v@)[j] == #[trigger] v@[j]@,
            view_values(v@).len() == v@.len(),
            forall|j: int| 0 <= j < i ==> #[trigger] out@[j]@ == v@[j]@,
        decreases v@.len() - i,
    {
        out.push(v[i].clone());
        i = i + 1;
    }
    proof {
        lemma_view_values(out@);
        assert forall|j: int| 0 <= j < v@.len() implies view_values(out@)[j] == view_values(
            v@,
        )[j] by {
            assert(out@[j]@ == v@[j]@);
        }
        assert(view_values(out@) =~= view_values(v@));
    }
    out
}

} // verus!
