//! The primitive operations, and their application.
//!
//! Each free function here is a builtin as the evaluator calls it: the
//! argument value is the call expression that packages the already-evaluated
//! arguments; a literal list handed directly is operated on itself.

use vstd::prelude::*;

use crate::environment::Environment;
use crate::eval_error::{eval_res_view, EvalError, SpecEvalError};
use crate::function::{Builtin, Function};
use crate::qexpr::Qexpr;
use crate::semantics::{
    bind_syms, first_non_sym, spec_apply, spec_arith, spec_def, spec_eval, spec_head, spec_join,
    spec_tail,
};
use crate::sexpr::Sexpr;
use crate::value::{
    lemma_view_values, lemma_view_values_subrange, view_values, SpecValue, Value,
};

verus! {

/// Skipping a prefix of symbols does not change the first non-symbol.
proof fn lemma_first_non_sym_skip(s: Seq<SpecValue>, i: int)
    requires
        0 <= i <= s.len(),
        forall|j: int| 0 <= j < i ==> (#[trigger] s[j]) is Sym,
    ensures
        first_non_sym(s) == first_non_sym(s.subrange(i, s.len() as int)),
    decreases i,
{
    if i == 0 {
        assert(s.subrange(0, s.len() as int) =~= s);
    } else {
        let rest = s.subrange(1, s.len() as int);
        assert(s[0] is Sym);
        assert forall|j: int| 0 <= j < i - 1 implies (#[trigger] rest[j]) is Sym by {
            assert(rest[j] == s[j + 1]);
        }
        lemma_first_non_sym_skip(rest, i - 1);
        assert(rest.subrange(i - 1, rest.len() as int) =~= s.subrange(i, s.len() as int));
    }
}

/// `def` applied to its packaged arguments: the first must be a literal
/// list of symbols, bound positionally to the remaining arguments; the
/// result is the `eval` builtin.
#[verifier::loop_isolation(false)]
fn def_args(args: Sexpr, env: &mut Environment) -> (r: Result<Value, EvalError>)
    ensures
        ({
            let (sr, senv) = spec_def(args@, old(env)@);
            eval_res_view(r) == sr && final(env)@ == senv
        }),
{
    let ghost argsv = args@;
    proof {
        lemma_view_values(args.0@);
    }
    if args.0.len() == 0 {
        return Err(EvalError::MissingArguments);
    }
    let ghost orig = args.0@;
    let mut vals = args.0;
    let first = vals.remove(0);
    proof {
        assert(vals@ =~= orig.subrange(1, orig.len() as int));
        lemma_view_values_subrange(orig, 1, orig.len() as int);
        assert(argsv[0] == orig[0]@);
    }
    let ghost first_view = first@;
    let syms_list = match first {
        Value::Qexpr(q) => {
            proof {
                assert(first_view == SpecValue::List(view_values(q.0@)));
            }
            q
        },
        _ => {
            return Err(EvalError::WrongType(String::from_str("def")));
        },
    };
    let ghost symsv = view_values(syms_list.0@);
    proof {
        assert(argsv[0] == SpecValue::List(symsv));
        lemma_view_values(syms_list.0@);
    }
    let mut names: Vec<String> = Vec::new();
    let mut j: usize = 0;
    while j < syms_list.0.len()
        invariant
            j <= syms_list.0@.len(),
            argsv.len() >= 1,
            argsv[0] == SpecValue::List(symsv),
            symsv == view_values(syms_list.0@),
            symsv.len() == syms_list.0@.len(),
            forall|k: int| 0 <= k < symsv.len() ==> symsv[k] == #[trigger] syms_list.0@[k]@,
            names@.len() == j,
            forall|k: int| 0 <= k < j ==> (#[trigger] symsv[k]) is Sym,
            forall|k: int| 0 <= k < j ==> (#[trigger] names@[k])@ == symsv[k]->Sym_0,
        decreases syms_list.0@.len() - j,
    {
        match &syms_list.0[j] {
            Value::Sym(s) => {
                proof {
                    assert(symsv[j as int] == syms_list.0@[j as int]@);
                }
                names.push(s.clone());
            },
            other => {
                proof {
                    assert(symsv[j as int] == syms_list.0@[j as int]@);
                    assert(!(other@ is Sym));
                    assert(!(symsv[j as int] is Sym));
                    lemma_first_non_sym_skip(symsv, j as int);
                    assert(symsv.subrange(j as int, symsv.len() as int)[0] == symsv[j as int]);
                    assert(first_non_sym(symsv) is Some);
                }
                return Err(EvalError::NotASymbol);
            },
        }
        j = j + 1;
    }
    proof {
        lemma_first_non_sym_skip(symsv, symsv.len() as int);
        assert(symsv.subrange(symsv.len() as int, symsv.len() as int) =~= Seq::<
            SpecValue,
        >::empty());
    }
    if names.len() == 0 {
        return Err(EvalError::MissingArguments);
    }
    let ghost valsv = view_values(vals@);
    proof {
        lemma_view_values(vals@);
    }
    let bound = if names.len() <= vals.len() {
        names.len()
    } else {
        vals.len()
    };
    let ghost env0 = env@;
    proof {
        assert(symsv.subrange(0, symsv.len() as int) =~= symsv);
        assert(valsv.subrange(0, valsv.len() as int) =~= valsv);
    }
    let mut k: usize = 0;
    while k < bound
        invariant
            k <= bound,
            argsv.len() >= 1,
            argsv[0] == SpecValue::List(symsv),
            first_non_sym(symsv) is None,
            symsv.len() >= 1,
            valsv == argsv.subrange(1, argsv.len() as int),
            bound <= names@.len(),
            bound <= vals@.len(),
            bound == if names@.len() <= vals@.len() {
                names@.len() as int
            } else {
                vals@.len() as int
            },
            symsv.len() == names@.len(),
            valsv == view_values(vals@),
            valsv.len() == vals@.len(),
            forall|i: int| 0 <= i < valsv.len() ==> valsv[i] == #[trigger] vals@[i]@,
            forall|i: int| 0 <= i < names@.len() ==> (#[trigger] symsv[i]) is Sym,
            forall|i: int| 0 <= i < names@.len() ==> (#[trigger] names@[i])@ == symsv[i]->Sym_0,
            bind_syms(symsv, valsv, env0) == bind_syms(
                symsv.subrange(k as int, symsv.len() as int),
                valsv.subrange(k as int, valsv.len() as int),
                env@,
            ),
        decreases bound - k,
    {
        let ghost syms_rest = symsv.subrange(k as int, symsv.len() as int);
        let ghost vals_rest = valsv.subrange(k as int, valsv.len() as int);
        proof {
            assert(syms_rest[0] == symsv[k as int]);
            assert(vals_rest[0] == valsv[k as int]);
            assert(syms_rest.subrange(1, syms_rest.len() as int) =~= symsv.subrange(
                k as int + 1,
                symsv.len() as int,
            ));
            assert(vals_rest.subrange(1, vals_rest.len() as int) =~= valsv.subrange(
                k as int + 1,
                valsv.len() as int,
            ));
        }
        let name = names[k].clone();
        let value = vals[k].clone();
        env.insert(name, value);
        k = k + 1;
    }
    proof {
        if names.len() <= vals@.len() {
            assert(symsv.subrange(bound as int, symsv.len() as int) =~= Seq::<
                SpecValue,
            >::empty());
        } else {
            assert(valsv.subrange(bound as int, valsv.len() as int) =~= Seq::<
                SpecValue,
            >::empty());
        }
    }
    Ok(Value::Fun(Function(Builtin::Eval)))
}

/// A builtin applied to its already-evaluated arguments, packaged as a call
/// expression, exactly as [`spec_apply`] reduces them.
pub(crate) fn apply_fuel(op: Builtin, args: Sexpr, env: &mut Environment, fuel: u64) -> (r: Result<
    Value,
    EvalError,
>)
    ensures
        ({
            let (sr, senv) = spec_apply(op, args@, old(env)@, fuel as nat);
            eval_res_view(r) == sr && final(env)@ == senv
        }),
    decreases fuel, args, 3int,
{
    proof {
        lemma_view_values(args.0@);
    }
    let ghost argsv = args@;
    match op {
        Builtin::List => Ok(Value::Qexpr(Qexpr(args.0))),
        Builtin::Head => {
            if args.0.len() == 1 {
                let mut items = args.0;
                let first = items.remove(0);
                proof {
                    assert(argsv[0] == first@);
                }
                match first {
                    Value::Qexpr(q) => q.head(),
                    _ => Err(EvalError::WrongType(String::from_str("head"))),
                }
            } else {
                Err(EvalError::WrongType(String::from_str("head")))
            }
        },
        Builtin::Tail => {
            if args.0.len() == 1 {
                let mut items = args.0;
                let first = items.remove(0);
                proof {
                    assert(argsv[0] == first@);
                }
                match first {
                    Value::Qexpr(q) => q.tail(),
                    _ => Err(EvalError::WrongType(String::from_str("tail"))),
                }
            } else {
                Err(EvalError::WrongType(String::from_str("tail")))
            }
        },
        Builtin::Join => {
            if args.0.len() == 1 {
                let mut items = args.0;
                let first = items.remove(0);
                proof {
                    assert(argsv[0] == first@);
                }
                match first {
                    Value::Qexpr(q) => q.join(),
                    _ => {
                        proof {
                            assert(argsv.subrange(1, 1) =~= Seq::<SpecValue>::empty());
                        }
                        Err(EvalError::WrongType(String::from_str("join")))
                    },
                }
            } else {
                Qexpr(args.0).join()
            }
        },
        Builtin::Eval => {
            if args.0.len() == 1 {
                let mut items = args.0;
                let first = items.remove(0);
                proof {
                    assert(argsv[0] == first@);
                }
                match first {
                    Value::Qexpr(q) => {
                        if fuel == 0 {
                            Err(EvalError::DepthLimit)
                        } else {
                            Sexpr(q.0).eval_fuel(env, fuel - 1)
                        }
                    },
                    _ => Err(EvalError::WrongType(String::from_str("eval"))),
                }
            } else {
                Err(EvalError::WrongType(String::from_str("eval")))
            }
        },
        Builtin::Def => def_args(args, env),
        Builtin::Add => Sexpr(args.0).add(),
        Builtin::Sub => Sexpr(args.0).sub(),
        Builtin::Mul => Sexpr(args.0).mul(),
        Builtin::Div => Sexpr(args.0).div(),
    }
}

/// `list`: the arguments as a literal list; a literal list stays itself.
pub fn list(val: Value, env: &mut Environment) -> (r: Result<Value, EvalError>)
    ensures
        final(env)@ == old(env)@,
        match val@ {
            SpecValue::Call(args) => eval_res_view(r) == Ok::<_, SpecEvalError>(
                SpecValue::List(args),
            ),
            SpecValue::List(xs) => eval_res_view(r) == Ok::<_, SpecEvalError>(SpecValue::List(xs)),
            _ => eval_res_view(r) == Err::<SpecValue, _>(SpecEvalError::WrongType("list"@)),
        },
{
    match val {
        Value::Sexpr(s) => Ok(Value::Qexpr(Qexpr(s.0))),
        Value::Qexpr(q) => Ok(Value::Qexpr(q)),
        _ => Err(EvalError::WrongType(String::from_str("list"))),
    }
}

/// `head`: the first element of one literal list argument, as a one-element
/// list.
pub fn head(val: Value, env: &mut Environment) -> (r: Result<Value, EvalError>)
    ensures
        final(env)@ == old(env)@,
        match val@ {
            SpecValue::Call(args) => eval_res_view(r) == spec_apply(
                Builtin::Head,
                args,
                old(env)@,
                0,
            ).0,
            SpecValue::List(xs) => eval_res_view(r) == spec_head(xs),
            _ => eval_res_view(r) == Err::<SpecValue, _>(SpecEvalError::WrongType("head"@)),
        },
{
    match val {
        Value::Sexpr(s) => apply_fuel(Builtin::Head, s, env, 0),
        Value::Qexpr(q) => q.head(),
        _ => Err(EvalError::WrongType(String::from_str("head"))),
    }
}

/// `tail`: everything but the first element of one literal list argument.
pub fn tail(val: Value, env: &mut Environment) -> (r: Result<Value, EvalError>)
    ensures
        final(env)@ == old(env)@,
        match val@ {
            SpecValue::Call(args) => eval_res_view(r) == spec_apply(
                Builtin::Tail,
                args,
                old(env)@,
                0,
            ).0,
            SpecValue::List(xs) => eval_res_view(r) == spec_tail(xs),
            _ => eval_res_view(r) == Err::<SpecValue, _>(SpecEvalError::WrongType("tail"@)),
        },
{
    match val {
        Value::Sexpr(s) => apply_fuel(Builtin::Tail, s, env, 0),
        Value::Qexpr(q) => q.tail(),
        _ => Err(EvalError::WrongType(String::from_str("tail"))),
    }
}

/// `join`: literal lists concatenated into one flat literal list.
pub fn join(val: Value, env: &mut Environment) -> (r: Result<Value, EvalError>)
    ensures
        final(env)@ == old(env)@,
        match val@ {
            SpecValue::Call(args) => eval_res_view(r) == spec_apply(
                Builtin::Join,
                args,
                old(env)@,
                0,
            ).0,
            SpecValue::List(xs) => eval_res_view(r) == spec_join(xs),
            _ => eval_res_view(r) == Err::<SpecValue, _>(SpecEvalError::WrongType("join"@)),
        },
{
    match val {
        Value::Sexpr(s) => apply_fuel(Builtin::Join, s, env, 0),
        Value::Qexpr(q) => q.join(),
        _ => Err(EvalError::WrongType(String::from_str("join"))),
    }
}

/// `eval`: one literal list argument re-read as a call expression and
/// evaluated against `env`, under the default nesting bound.
pub fn eval(val: Value, env: &mut Environment) -> (r: Result<Value, EvalError>)
    ensures
        ({
            let fuel = crate::DEFAULT_FUEL as nat;
            match val@ {
                SpecValue::Call(args) => {
                    let (sr, senv) = spec_apply(Builtin::Eval, args, old(env)@, fuel);
                    eval_res_view(r) == sr && final(env)@ == senv
                },
                SpecValue::List(xs) => {
                    let (sr, senv) = spec_eval(SpecValue::Call(xs), old(env)@, fuel);
                    eval_res_view(r) == sr && final(env)@ == senv
                },
                _ => eval_res_view(r) == Err::<SpecValue, _>(SpecEvalError::WrongType("eval"@))
                    && final(env)@ == old(env)@,
            }
        }),
{
    match val {
        Value::Sexpr(s) => apply_fuel(Builtin::Eval, s, env, crate::DEFAULT_FUEL),
        Value::Qexpr(q) => Sexpr(q.0).eval_fuel(env, crate::DEFAULT_FUEL),
        _ => Err(EvalError::WrongType(String::from_str("eval"))),
    }
}

/// `def`: bind the symbols of the first argument, a literal list, to the
/// remaining arguments, one by one; the result is the `eval` builtin.
pub fn def(val: Value, env: &mut Environment) -> (r: Result<Value, EvalError>)
    ensures
        ({
            match val@ {
                SpecValue::Call(args) => {
                    let (sr, senv) = spec_def(args, old(env)@);
                    eval_res_view(r) == sr && final(env)@ == senv
                },
                _ => eval_res_view(r) == Err::<SpecValue, _>(SpecEvalError::WrongType("def"@))
                    && final(env)@ == old(env)@,
            }
        }),
{
    match val {
        Value::Sexpr(s) => def_args(s, env),
        _ => Err(EvalError::WrongType(String::from_str("def"))),
    }
}

/// `+`: the sum of the arguments, which must all be numbers.
pub fn add(val: Value, env: &mut Environment) -> (r: Result<Value, EvalError>)
    ensures
        final(env)@ == old(env)@,
        match val@ {
            SpecValue::Call(args) => eval_res_view(r) == spec_arith(Builtin::Add, args),
            _ => eval_res_view(r) == Err::<SpecValue, _>(SpecEvalError::WrongType("add"@)),
        },
{
    match val {
        Value::Sexpr(s) => s.add(),
        _ => Err(EvalError::WrongType(String::from_str("add"))),
    }
}

/// `-`: every argument subtracted from zero in turn; one argument is
/// negated.
pub fn sub(val: Value, env: &mut Environment) -> (r: Result<Value, EvalError>)
    ensures
        final(env)@ == old(env)@,
        match val@ {
            SpecValue::Call(args) => eval_res_view(r) == spec_arith(Builtin::Sub, args),
            _ => eval_res_view(r) == Err::<SpecValue, _>(SpecEvalError::WrongType("sub"@)),
        },
{
    match val {
        Value::Sexpr(s) => s.sub(),
        _ => Err(EvalError::WrongType(String::from_str("sub"))),
    }
}

/// `*`: the product of the arguments, which must all be numbers.
pub fn mul(val: Value, env: &mut Environment) -> (r: Result<Value, EvalError>)
    ensures
        final(env)@ == old(env)@,
        match val@ {
            SpecValue::Call(args) => eval_res_view(r) == spec_arith(Builtin::Mul, args),
            _ => eval_res_view(r) == Err::<SpecValue, _>(SpecEvalError::WrongType("mul"@)),
        },
{
    match val {
        Value::Sexpr(s) => s.mul(),
        _ => Err(EvalError::WrongType(String::from_str("mul"))),
    }
}

/// `/`: the first argument divided by each of the rest in turn, truncating.
pub fn div(val: Value, env: &mut Environment) -> (r: Result<Value, EvalError>)
    ensures
        final(env)@ == old(env)@,
        match val@ {
            SpecValue::Call(args) => eval_res_view(r) == spec_arith(Builtin::Div, args),
            _ => eval_res_view(r) == Err::<SpecValue, _>(SpecEvalError::WrongType("div"@)),
        },
{
    match val {
        Value::Sexpr(s) => s.div(),
        _ => Err(EvalError::WrongType(String::from_str("div"))),
    }
}

} // verus!
