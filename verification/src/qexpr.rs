//! Literal list expressions.

use vstd::prelude::*;

use crate::eval_error::EvalError;
use crate::semantics::{spec_head, spec_join, spec_join_elems, spec_tail};
use crate::value::{clone_values, lemma_view_values, view_values, SpecValue, Value};

verus! {

/// A literal list: an ordered sequence of values that is never evaluated on
/// its own. `head`, `tail` and `join` operate on it.
///
/// Its model is the sequence of the elements' models; as a value it stands
/// for `SpecValue::List` of that sequence.
#[derive(Debug, PartialEq, Eq)]
pub struct Qexpr(pub Vec<Value>);

impl View for Qexpr {
    type V = Seq<SpecValue>;

    open spec fn view(&self) -> Seq<SpecValue> {
        view_values(self.0@)
    }
}

impl Qexpr {
    /// The first element of this list, wrapped into a one-element list;
    /// an empty list has no head.
    pub fn head(self) -> (r: Result<Value, EvalError>)
        ensures
            crate::eval_error::eval_res_view(r) == spec_head(self@),
    {
        proof {
            lemma_view_values(self.0@);
        }
        if self.0.len() == 0 {
            Err(EvalError::EmptyList(String::from_str("head")))
        } else {
            let ghost orig = self.0@;
            let mut items = self.0;
            let first = items.remove(0);
            let out: Vec<Value> = vec![first];
            proof {
                lemma_view_values(out@);
                assert(out@[0] == orig[0]);
                assert(out@[0]@ == orig[0]@);
                assert(view_values(out@) =~= seq![self@[0]]);
            }
            Ok(Value::Qexpr(Qexpr(out)))
        }
    }

    /// Everything but the first element of this list, as a list; an empty
    /// list has no tail.
    pub fn tail(self) -> (r: Result<Value, EvalError>)
        ensures
            crate::eval_error::eval_res_view(r) == spec_tail(self@),
    {
        proof {
            lemma_view_values(self.0@);
        }
        if self.0.len() == 0 {
            Err(EvalError::EmptyList(String::from_str("tail")))
        } else {
            let ghost orig = self.0@;
            let mut items = self.0;
            let _ = items.remove(0);
            proof {
                assert(items@ =~= orig.subrange(1, orig.len() as int));
                crate::value::lemma_view_values_subrange(orig, 1, orig.len() as int);
            }
            Ok(Value::Qexpr(Qexpr(items)))
        }
    }

    /// Evaluate this literal list as if it were a call expression, against
    /// `env` with the default nesting bound.
    pub fn eval(self, env: &mut crate::environment::Environment) -> (r: Result<Value, EvalError>)
        ensures
            ({
                let (sr, senv) = crate::semantics::spec_eval(
                    SpecValue::Call(self@),
                    old(env)@,
                    crate::DEFAULT_FUEL as nat,
                );
                crate::eval_error::eval_res_view(r) == sr && final(env)@ == senv
            }),
    {
        crate::sexpr::Sexpr(self.0).eval_fuel(env, crate::DEFAULT_FUEL)
    }

    /// One flat list of the elements of this list's elements, each of which
    /// must itself be a list.
    pub fn join(self) -> (r: Result<Value, EvalError>)
        ensures
            crate::eval_error::eval_res_view(r) == spec_join(self@),
    {
        match join_vals(self.0) {
            Ok(flat) => Ok(Value::Qexpr(Qexpr(flat))),
            Err(e) => Err(e),
        }
    }
}

/// The elements of the lists of `items`, concatenated; an element that is
/// not a list is refused.
fn join_vals(items: Vec<Value>) -> (r: Result<Vec<Value>, EvalError>)
    ensures
        match r {
            Ok(flat) => spec_join_elems(view_values(items@)) == Ok::<_, crate::eval_error::SpecEvalError>(
                view_values(flat@),
            ),
            Err(e) => spec_join_elems(view_values(items@)) == Err::<Seq<SpecValue>, _>(e@),
        },
    decreases items@,
{
    proof {
        lemma_view_values(items@);
    }
    if items.len() == 0 {
        proof {
            lemma_view_values(Seq::<Value>::empty());
            assert(view_values(items@) =~= Seq::<SpecValue>::empty());
        }
        Ok(Vec::new())
    } else {
        let ghost orig = items@;
        let ghost full = view_values(items@);
        let mut rest_items = items;
        let first = rest_items.remove(0);
        proof {
            assert(rest_items@ =~= orig.subrange(1, orig.len() as int));
            crate::value::lemma_view_values_subrange(orig, 1, orig.len() as int);
            assert(view_values(rest_items@) == full.subrange(1, full.len() as int));
        }
        let ghost first_view = first@;
        proof {
            assert(full[0] == orig[0]@);
            assert(first_view == full[0]);
        }
        match first {
            Value::Qexpr(q) => {
                proof {
                    assert(first_view == SpecValue::List(view_values(q.0@)));
                }
                match join_vals(rest_items) {
                    Ok(rest) => {
                        let mut out = q.0;
                        let ghost head_items = out@;
                        let ghost tail_items = rest@;
                        let mut rest_mut = rest;
                        out.append(&mut rest_mut);
                        proof {
                            assert(out@ == head_items + tail_items);
                            crate::value::lemma_view_values_concat(head_items, tail_items);
                        }
                        Ok(out)
                    },
                    Err(e) => Err(e),
                }
            },
            v => {
                proof {
                    assert(full[0] == v@);
                }
                Err(EvalError::WrongType(String::from_str("join")))
            },
        }
    }
}

impl Clone for Qexpr {
    /// A deep copy with the same model.
    fn clone(&self) -> (r: Self)
        ensures
            r@ == self@,
        decreases self,
    {
        Qexpr(clone_values(&self.0))
    }
}

} // verus!
