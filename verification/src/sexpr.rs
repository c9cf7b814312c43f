//! Call expressions.

use vstd::prelude::*;

use crate::environment::Environment;
use crate::eval_error::{eval_res_view, EvalError, SpecEvalError};
use crate::function::Builtin;
use crate::semantics::{
    first_non_num, fold_add, fold_div, fold_mul, fold_sub, has_zero, in_i64, nums_of, spec_arith,
    spec_eval, spec_eval_elems, spec_finish, trunc_div,
};
use crate::value::{
    clone_values, lemma_view_values, lemma_view_values_subrange, view_values, SpecValue, Value,
};

verus! {

/// A call expression: an ordered sequence of values that is evaluated by
/// evaluating every element left to right and then applying the first
/// element (a builtin) to the rest.
///
/// Its model is the sequence of the elements' models; as a value it stands
/// for `SpecValue::Call` of that sequence.
#[derive(Debug, PartialEq, Eq)]
pub struct Sexpr(pub Vec<Value>);

impl View for Sexpr {
    type V = Seq<SpecValue>;

    open spec fn view(&self) -> Seq<SpecValue> {
        view_values(self.0@)
    }
}

/// The integers of a vector of machine integers.
pub open spec fn ints_of(ns: Seq<i64>) -> Seq<int> {
    ns.map_values(|x: i64| x as int)
}

/// Skipping a prefix of numbers does not change the first non-number.
proof fn lemma_first_non_num_skip(s: Seq<SpecValue>, i: int)
    requires
        0 <= i <= s.len(),
        forall|j: int| 0 <= j < i ==> (#[trigger] s[j]) is Num,
    ensures
        first_non_num(s) == first_non_num(s.subrange(i, s.len() as int)),
    decreases i,
{
    if i == 0 {
        assert(s.subrange(0, s.len() as int) =~= s);
    } else {
        let rest = s.subrange(1, s.len() as int);
        assert(s[0] is Num);
        assert forall|j: int| 0 <= j < i - 1 implies (#[trigger] rest[j]) is Num by {
            assert(rest[j] == s[j + 1]);
        }
        lemma_first_non_num_skip(rest, i - 1);
        assert(rest.subrange(i - 1, rest.len() as int) =~= s.subrange(i, s.len() as int));
    }
}

/// The numbers of `items`, which must all be number values; the first value
/// of another shape is refused.
fn extract_nums(items: &Vec<Value>) -> (r: Result<Vec<i64>, EvalError>)
    ensures
        match r {
            Ok(ns) => first_non_num(view_values(items@)) is None && ints_of(ns@) == nums_of(
                view_values(items@),
            ),
            Err(e) => match first_non_num(view_values(items@)) {
                Some(v) => e@ == SpecEvalError::NonNumber(v),
                None => false,
            },
        },
{
    let ghost vs = view_values(items@);
    proof {
        lemma_view_values(items@);
    }
    let mut ns: Vec<i64> = Vec::new();
    let mut i: usize = 0;
    while i < items.len()
        invariant
            i <= items@.len(),
            vs == view_values(items@),
            vs.len() == items@.len(),
            forall|j: int| 0 <= j < items@.len() ==> vs[j] == #[trigger] items@[j]@,
            ns@.len() == i,
            forall|j: int| 0 <= j < i ==> (#[trigger] vs[j]) is Num,
            forall|j: int| 0 <= j < i ==> (#[trigger] ns@[j]) as int == vs[j]->Num_0,
        decreases items@.len() - i,
    {
        match &items[i] {
            Value::Num(n) => {
                ns.push(*n);
                proof {
                    assert(vs[i as int] == items@[i as int]@);
                }
            },
            v => {
                proof {
                    lemma_first_non_num_skip(vs, i as int);
                    assert(vs.subrange(i as int, vs.len() as int)[0] == vs[i as int]);
                    assert(vs[i as int] == items@[i as int]@);
                }
                return Err(EvalError::NonNumber(v.clone()));
            },
        }
        i = i + 1;
    }
    proof {
        lemma_first_non_num_skip(vs, vs.len() as int);
        assert(vs.subrange(vs.len() as int, vs.len() as int) =~= Seq::<SpecValue>::empty());
        assert forall|j: int| 0 <= j < vs.len() implies ints_of(ns@)[j] == nums_of(vs)[j] by {
            assert(ns@[j] as int == vs[j]->Num_0);
        }
        assert(ints_of(ns@) =~= nums_of(vs));
    }
    Ok(ns)
}

/// The sum of the numbers, left to right from zero, each step within 64
/// bits.
fn sum_list(ns: &Vec<i64>) -> (r: Result<i64, EvalError>)
    ensures
        match r {
            Ok(total) => fold_add(ints_of(ns@), 0) == Ok::<int, SpecEvalError>(total as int),
            Err(e) => fold_add(ints_of(ns@), 0) == Err::<int, SpecEvalError>(e@),
        },
{
    let ghost iv = ints_of(ns@);
    proof {
        assert(iv.subrange(0, iv.len() as int) =~= iv);
    }
    let mut acc: i64 = 0;
    let mut i: usize = 0;
    while i < ns.len()
        invariant
            i <= ns@.len(),
            iv == ints_of(ns@),
            iv.len() == ns@.len(),
            forall|j: int| 0 <= j < ns@.len() ==> iv[j] == #[trigger] ns@[j] as int,
            fold_add(iv, 0) == fold_add(iv.subrange(i as int, iv.len() as int), acc as int),
        decreases ns@.len() - i,
    {
        let ghost before = iv.subrange(i as int, iv.len() as int);
        proof {
            assert(before[0] == iv[i as int]);
            assert(before.subrange(1, before.len() as int) =~= iv.subrange(
                i as int + 1,
                iv.len() as int,
            ));
        }
        match acc.checked_add(ns[i]) {
            Some(a2) => {
                acc = a2;
            },
            None => {
                return Err(EvalError::Overflow);
            },
        }
        i = i + 1;
    }
    proof {
        assert(iv.subrange(iv.len() as int, iv.len() as int) =~= Seq::<int>::empty());
    }
    Ok(acc)
}

/// Every number subtracted from zero in turn, each step within 64 bits.
fn sub_list(ns: &Vec<i64>) -> (r: Result<i64, EvalError>)
    ensures
        match r {
            Ok(total) => fold_sub(ints_of(ns@), 0) == Ok::<int, SpecEvalError>(total as int),
            Err(e) => fold_sub(ints_of(ns@), 0) == Err::<int, SpecEvalError>(e@),
        },
{
    let ghost iv = ints_of(ns@);
    proof {
        assert(iv.subrange(0, iv.len() as int) =~= iv);
    }
    let mut acc: i64 = 0;
    let mut i: usize = 0;
    while i < ns.len()
        invariant
            i <= ns@.len(),
            iv == ints_of(ns@),
            iv.len() == ns@.len(),
            forall|j: int| 0 <= j < ns@.len() ==> iv[j] == #[trigger] ns@[j] as int,
            fold_sub(iv, 0) == fold_sub(iv.subrange(i as int, iv.len() as int), acc as int),
        decreases ns@.len() - i,
    {
        let ghost before = iv.subrange(i as int, iv.len() as int);
        proof {
            assert(before[0] == iv[i as int]);
            assert(before.subrange(1, before.len() as int) =~= iv.subrange(
                i as int + 1,
                iv.len() as int,
            ));
        }
        match acc.checked_sub(ns[i]) {
            Some(a2) => {
                acc = a2;
            },
            None => {
                return Err(EvalError::Overflow);
            },
        }
        i = i + 1;
    }
    proof {
        assert(iv.subrange(iv.len() as int, iv.len() as int) =~= Seq::<int>::empty());
    }
    Ok(acc)
}

/// The product of the numbers, left to right from one, each step within 64
/// bits.
fn mul_list(ns: &Vec<i64>) -> (r: Result<i64, EvalError>)
    ensures
        match r {
            Ok(total) => fold_mul(ints_of(ns@), 1) == Ok::<int, SpecEvalError>(total as int),
            Err(e) => fold_mul(ints_of(ns@), 1) == Err::<int, SpecEvalError>(e@),
        },
{
    let ghost iv = ints_of(ns@);
    proof {
        assert(iv.subrange(0, iv.len() as int) =~= iv);
    }
    let mut acc: i64 = 1;
    let mut i: usize = 0;
    while i < ns.len()
        invariant
            i <= ns@.len(),
            iv == ints_of(ns@),
            iv.len() == ns@.len(),
            forall|j: int| 0 <= j < ns@.len() ==> iv[j] == #[trigger] ns@[j] as int,
            fold_mul(iv, 1) == fold_mul(iv.subrange(i as int, iv.len() as int), acc as int),
        decreases ns@.len() - i,
    {
        let ghost before = iv.subrange(i as int, iv.len() as int);
        proof {
            assert(before[0] == iv[i as int]);
            assert(before.subrange(1, before.len() as int) =~= iv.subrange(
                i as int + 1,
                iv.len() as int,
            ));
        }
        match acc.checked_mul(ns[i]) {
            Some(a2) => {
                acc = a2;
            },
            None => {
                return Err(EvalError::Overflow);
            },
        }
        i = i + 1;
    }
    proof {
        assert(iv.subrange(iv.len() as int, iv.len() as int) =~= Seq::<int>::empty());
    }
    Ok(acc)
}

/// The first number divided by each of the rest in turn, truncating, each
/// step within 64 bits. No number here is zero.
fn div_list(ns: &Vec<i64>) -> (r: Result<i64, EvalError>)
    requires
        ns@.len() > 0,
        forall|j: int| 0 <= j < ns@.len() ==> #[trigger] ns@[j] != 0,
    ensures
        ({
            let iv = ints_of(ns@);
            let folded = fold_div(iv.subrange(1, iv.len() as int), iv[0]);
            match r {
                Ok(total) => folded == Ok::<int, SpecEvalError>(total as int),
                Err(e) => folded == Err::<int, SpecEvalError>(e@),
            }
        }),
{
    let ghost iv = ints_of(ns@);
    let mut acc: i64 = ns[0];
    let mut i: usize = 1;
    while i < ns.len()
        invariant
            1 <= i <= ns@.len(),
            iv == ints_of(ns@),
            iv.len() == ns@.len(),
            forall|j: int| 0 <= j < ns@.len() ==> iv[j] == #[trigger] ns@[j] as int,
            forall|j: int| 0 <= j < ns@.len() ==> #[trigger] ns@[j] != 0,
            fold_div(iv.subrange(1, iv.len() as int), iv[0]) == fold_div(
                iv.subrange(i as int, iv.len() as int),
                acc as int,
            ),
        decreases ns@.len() - i,
    {
        let ghost before = iv.subrange(i as int, iv.len() as int);
        proof {
            assert(before[0] == iv[i as int]);
            assert(before.subrange(1, before.len() as int) =~= iv.subrange(
                i as int + 1,
                iv.len() as int,
            ));
        }
        match acc.checked_div(ns[i]) {
            Some(a2) => {
                proof {
                    assert(a2 as int == trunc_div(acc as int, iv[i as int]));
                }
                acc = a2;
            },
            None => {
                proof {
                    assert(!in_i64(trunc_div(acc as int, iv[i as int])));
                }
                return Err(EvalError::Overflow);
            },
        }
        i = i + 1;
    }
    proof {
        assert(iv.subrange(iv.len() as int, iv.len() as int) =~= Seq::<int>::empty());
    }
    Ok(acc)
}

/// The values of `items` evaluated left to right against `env`; the first
/// failure stops the walk, leaving the environment changes already made.
fn eval_elems(items: Vec<Value>, env: &mut Environment, fuel: u64) -> (r: Result<
    Vec<Value>,
    EvalError,
>)
    ensures
        ({
            let (sr, senv) = spec_eval_elems(view_values(items@), old(env)@, fuel as nat);
            final(env)@ == senv && match r {
                Ok(vs) => sr == Ok::<_, SpecEvalError>(view_values(vs@)),
                Err(e) => sr == Err::<Seq<SpecValue>, _>(e@),
            }
        }),
    decreases fuel, items@, 2int,
{
    proof {
        lemma_view_values(items@);
    }
    if items.len() == 0 {
        let out: Vec<Value> = Vec::new();
        proof {
            lemma_view_values(out@);
            assert(view_values(out@) =~= Seq::<SpecValue>::empty());
            assert(view_values(items@) =~= Seq::<SpecValue>::empty());
        }
        Ok(out)
    } else {
        let ghost orig = items@;
        let ghost full = view_values(items@);
        let mut rest_items = items;
        let first = rest_items.remove(0);
        proof {
            assert(rest_items@ =~= orig.subrange(1, orig.len() as int));
            lemma_view_values_subrange(orig, 1, orig.len() as int);
            assert(full[0] == orig[0]@);
        }
        let v0 = match first.eval_fuel(env, fuel) {
            Ok(v) => v,
            Err(e) => {
                return Err(e);
            },
        };
        let rest = match eval_elems(rest_items, env, fuel) {
            Ok(vs) => vs,
            Err(e) => {
                return Err(e);
            },
        };
        let ghost rest_seq = rest@;
        let ghost v0_view = v0@;
        let mut out = rest;
        out.insert(0, v0);
        proof {
            assert(out@[0]@ == v0_view);
            let single = seq![out@[0]];
            lemma_view_values(single);
            assert(out@ =~= single + rest_seq);
            crate::value::lemma_view_values_concat(single, rest_seq);
            assert(view_values(single) =~= seq![v0_view]);
        }
        Ok(out)
    }
}

impl Sexpr {
    /// Evaluate this call expression against `env` with an explicit nesting
    /// bound: every element left to right, then the reduction of
    /// [`spec_finish`] — empty stays empty, one value stands for itself,
    /// and otherwise the first value, a builtin, is applied to the rest.
    pub fn eval_fuel(self, env: &mut Environment, fuel: u64) -> (r: Result<Value, EvalError>)
        ensures
            ({
                let (sr, senv) = spec_eval(SpecValue::Call(self@), old(env)@, fuel as nat);
                eval_res_view(r) == sr && final(env)@ == senv
            }),
        decreases fuel, self, 0int,
    {
        if fuel == 0 {
            return Err(EvalError::DepthLimit);
        }
        let f2 = fuel - 1;
        let rs = match eval_elems(self.0, env, f2) {
            Ok(rs) => rs,
            Err(e) => {
                return Err(e);
            },
        };
        let ghost rs_view = view_values(rs@);
        proof {
            lemma_view_values(rs@);
        }
        if rs.len() == 0 {
            let empty: Vec<Value> = Vec::new();
            proof {
                lemma_view_values(empty@);
                assert(view_values(empty@) =~= Seq::<SpecValue>::empty());
            }
            Ok(Value::Sexpr(Sexpr(empty)))
        } else if rs.len() == 1 {
            let mut rs_mut = rs;
            let v = rs_mut.remove(0);
            Ok(v)
        } else {
            let ghost before = rs@;
            let mut rs_mut = rs;
            let first = rs_mut.remove(0);
            proof {
                assert(rs_mut@ =~= before.subrange(1, before.len() as int));
                lemma_view_values_subrange(before, 1, before.len() as int);
                assert(rs_view[0] == before[0]@);
            }
            match first {
                Value::Fun(f) => crate::builtin::apply_fuel(f.0, Sexpr(rs_mut), env, f2),
                _ => Err(EvalError::NotAFunction),
            }
        }
    }

    /// Evaluate this call expression against `env` with the default nesting
    /// bound.
    pub fn eval(self, env: &mut Environment) -> (r: Result<Value, EvalError>)
        ensures
            ({
                let (sr, senv) = spec_eval(
                    SpecValue::Call(self@),
                    old(env)@,
                    crate::DEFAULT_FUEL as nat,
                );
                eval_res_view(r) == sr && final(env)@ == senv
            }),
    {
        self.eval_fuel(env, crate::DEFAULT_FUEL)
    }

    /// The sum of the elements, which must all be numbers.
    pub fn add(self) -> (r: Result<Value, EvalError>)
        ensures
            eval_res_view(r) == spec_arith(Builtin::Add, self@),
    {
        let ns = match extract_nums(&self.0) {
            Ok(ns) => ns,
            Err(e) => {
                return Err(e);
            },
        };
        match sum_list(&ns) {
            Ok(total) => Ok(Value::Num(total)),
            Err(e) => Err(e),
        }
    }

    /// Every element subtracted from zero in turn: one element is negated,
    /// several give zero minus their sum. All must be numbers.
    pub fn sub(self) -> (r: Result<Value, EvalError>)
        ensures
            eval_res_view(r) == spec_arith(Builtin::Sub, self@),
    {
        let ns = match extract_nums(&self.0) {
            Ok(ns) => ns,
            Err(e) => {
                return Err(e);
            },
        };
        match sub_list(&ns) {
            Ok(total) => Ok(Value::Num(total)),
            Err(e) => Err(e),
        }
    }

    /// The product of the elements, which must all be numbers.
    pub fn mul(self) -> (r: Result<Value, EvalError>)
        ensures
            eval_res_view(r) == spec_arith(Builtin::Mul, self@),
    {
        let ns = match extract_nums(&self.0) {
            Ok(ns) => ns,
            Err(e) => {
                return Err(e);
            },
        };
        match mul_list(&ns) {
            Ok(total) => Ok(Value::Num(total)),
            Err(e) => Err(e),
        }
    }

    /// The first element divided by each of the rest in turn, truncating.
    /// All elements must be numbers, none may be zero, and a single element
    /// is returned unchanged.
    pub fn div(self) -> (r: Result<Value, EvalError>)
        ensures
            eval_res_view(r) == spec_arith(Builtin::Div, self@),
    {
        let ns = match extract_nums(&self.0) {
            Ok(ns) => ns,
            Err(e) => {
                return Err(e);
            },
        };
        let ghost iv = ints_of(ns@);
        let mut i: usize = 0;
        while i < ns.len()
            invariant
                i <= ns@.len(),
                iv == ints_of(ns@),
                iv == nums_of(view_values(self.0@)),
                first_non_num(view_values(self.0@)) is None,
                iv.len() == ns@.len(),
                forall|j: int| 0 <= j < ns@.len() ==> iv[j] == #[trigger] ns@[j] as int,
                forall|j: int| 0 <= j < i ==> #[trigger] iv[j] != 0,
            decreases ns@.len() - i,
        {
            if ns[i] == 0 {
                proof {
                    assert(iv[i as int] == 0);
                    assert(has_zero(iv));
                }
                return Err(EvalError::DivisionByZero);
            }
            i = i + 1;
        }
        proof {
            assert(!has_zero(iv));
        }
        if ns.len() == 0 {
            Err(EvalError::MissingArguments)
        } else if ns.len() == 1 {
            proof {
                assert(iv.subrange(1, iv.len() as int) =~= Seq::<int>::empty());
            }
            Ok(Value::Num(ns[0]))
        } else {
            proof {
                assert forall|j: int| 0 <= j < ns@.len() implies #[trigger] ns@[j] != 0 by {
                    assert(iv[j] != 0);
                }
            }
            match div_list(&ns) {
                Ok(total) => Ok(Value::Num(total)),
                Err(e) => Err(e),
            }
        }
    }

    /// The arithmetic builtin named by `operator` applied to the elements;
    /// a token other than `+`, `-`, `*` or `/` is refused.
    pub fn op(self, operator: &str) -> (r: Result<Value, EvalError>)
        ensures
            ({
                let o = operator@;
                if o == "+"@ {
                    eval_res_view(r) == spec_arith(Builtin::Add, self@)
                } else if o == "-"@ {
                    eval_res_view(r) == spec_arith(Builtin::Sub, self@)
                } else if o == "*"@ {
                    eval_res_view(r) == spec_arith(Builtin::Mul, self@)
                } else if o == "/"@ {
                    eval_res_view(r) == spec_arith(Builtin::Div, self@)
                } else {
                    eval_res_view(r) == Err::<SpecValue, _>(SpecEvalError::InvalidOperator(o))
                }
            }),
    {
        proof {
            reveal_strlit("+");
            reveal_strlit("-");
            reveal_strlit("*");
            reveal_strlit("/");
        }
        if operator.unicode_len() == 1 {
            let c = operator.get_char(0);
            if c == '+' {
                proof {
                    assert(operator@ =~= "+"@);
                }
                self.add()
            } else if c == '-' {
                proof {
                    assert(operator@ =~= "-"@);
                }
                self.sub()
            } else if c == '*' {
                proof {
                    assert(operator@ =~= "*"@);
                }
                self.mul()
            } else if c == '/' {
                proof {
                    assert(operator@ =~= "/"@);
                }
                self.div()
            } else {
                proof {
                    assert(operator@ != "+"@ && operator@ != "-"@ && operator@ != "*"@
                        && operator@ != "/"@);
                }
                Err(EvalError::InvalidOperator(operator.to_owned()))
            }
        } else {
            proof {
                assert(operator@ != "+"@ && operator@ != "-"@ && operator@ != "*"@ && operator@
                    != "/"@);
            }
            Err(EvalError::InvalidOperator(operator.to_owned()))
        }
    }
}

impl Clone for Sexpr {
    /// A deep copy with the same model.
    fn clone(&self) -> (r: Self)
        ensures
            r@ == self@,
        decreases self,
    {
        Sexpr(clone_values(&self.0))
    }
}

} // verus!
