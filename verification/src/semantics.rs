//! The meaning of evaluation, stated mathematically.
//!
//! Every executable evaluation function of the library promises to return
//! exactly what the functions here compute. Evaluation threads the
//! environment through (a `def` inside an argument is seen by the arguments
//! after it) and carries a fuel bound on nesting: the language itself has no
//! recursion construct, but `eval` re-enters the evaluator on data that a
//! `def` can make self-referential, so unbounded nesting is possible and a
//! run out of fuel reports [`SpecEvalError::DepthLimit`].

use vstd::prelude::*;

use crate::environment::SpecEnv;
use crate::eval_error::SpecEvalError;
use crate::function::Builtin;
use crate::value::SpecValue;

verus! {

/// The result of one evaluation step: the value or the error, and the
/// environment as the step left it.
pub type SpecEvalResult = (Result<SpecValue, SpecEvalError>, SpecEnv);

/// `head` of the elements of a literal list: the first element, wrapped
/// back into a one-element list; an empty list has no head.
pub open spec fn spec_head(xs: Seq<SpecValue>) -> Result<SpecValue, SpecEvalError> {
    if xs.len() == 0 {
        Err(SpecEvalError::EmptyList("head"@))
    } else {
        Ok(SpecValue::List(seq![xs[0]]))
    }
}

/// `tail` of the elements of a literal list: everything but the first
/// element; an empty list has no tail.
pub open spec fn spec_tail(xs: Seq<SpecValue>) -> Result<SpecValue, SpecEvalError> {
    if xs.len() == 0 {
        Err(SpecEvalError::EmptyList("tail"@))
    } else {
        Ok(SpecValue::List(xs.subrange(1, xs.len() as int)))
    }
}

/// The concatenation of the elements of `items`, each of which must itself
/// be a literal list.
pub open spec fn spec_join_elems(items: Seq<SpecValue>) -> Result<Seq<SpecValue>, SpecEvalError>
    decreases items.len(),
{
    if items.len() == 0 {
        Ok(Seq::empty())
    } else {
        match items[0] {
            SpecValue::List(xs) => match spec_join_elems(
                items.subrange(1, items.len() as int),
            ) {
                Ok(rest) => Ok(xs + rest),
                Err(e) => Err(e),
            },
            _ => Err(SpecEvalError::WrongType("join"@)),
        }
    }
}

/// `join` over `items`: one flat literal list of their elements.
pub open spec fn spec_join(items: Seq<SpecValue>) -> Result<SpecValue, SpecEvalError> {
    match spec_join_elems(items) {
        Ok(flat) => Ok(SpecValue::List(flat)),
        Err(e) => Err(e),
    }
}

/// The first argument that is not a number, if any.
pub open spec fn first_non_num(args: Seq<SpecValue>) -> Option<SpecValue>
    decreases args.len(),
{
    if args.len() == 0 {
        None
    } else if !(args[0] is Num) {
        Some(args[0])
    } else {
        first_non_num(args.subrange(1, args.len() as int))
    }
}

/// The integers of a sequence of number values.
pub open spec fn nums_of(args: Seq<SpecValue>) -> Seq<int> {
    Seq::new(args.len(), |i: int| args[i]->Num_0)
}

/// Whether `n` fits a 64-bit signed integer.
pub open spec fn in_i64(n: int) -> bool {
    i64::MIN <= n <= i64::MAX
}

/// The sum `acc + ns[0] + ns[1] + ...`, taken left to right, each
/// intermediate sum required to fit 64 bits.
pub open spec fn fold_add(ns: Seq<int>, acc: int) -> Result<int, SpecEvalError>
    decreases ns.len(),
{
    if ns.len() == 0 {
        Ok(acc)
    } else if !in_i64(acc + ns[0]) {
        Err(SpecEvalError::Overflow)
    } else {
        fold_add(ns.subrange(1, ns.len() as int), acc + ns[0])
    }
}

/// The difference `acc - ns[0] - ns[1] - ...`, taken left to right, each
/// intermediate difference required to fit 64 bits.
pub open spec fn fold_sub(ns: Seq<int>, acc: int) -> Result<int, SpecEvalError>
    decreases ns.len(),
{
    if ns.len() == 0 {
        Ok(acc)
    } else if !in_i64(acc - ns[0]) {
        Err(SpecEvalError::Overflow)
    } else {
        fold_sub(ns.subrange(1, ns.len() as int), acc - ns[0])
    }
}

/// The product `acc * ns[0] * ns[1] * ...`, taken left to right, each
/// intermediate product required to fit 64 bits.
pub open spec fn fold_mul(ns: Seq<int>, acc: int) -> Result<int, SpecEvalError>
    decreases ns.len(),
{
    if ns.len() == 0 {
        Ok(acc)
    } else if !in_i64(acc * ns[0]) {
        Err(SpecEvalError::Overflow)
    } else {
        fold_mul(ns.subrange(1, ns.len() as int), acc * ns[0])
    }
}

/// Integer division truncated toward zero, as the machine divides.
pub open spec fn trunc_div(x: int, d: int) -> int {
    if x == 0 {
        0
    } else if x > 0 && d > 0 {
        x / d
    } else if x < 0 && d < 0 {
        (x * -1) / (d * -1)
    } else if x < 0 {
        ((x * -1) / d) * -1
    } else {
        (x / (d * -1)) * -1
    }
}

/// The quotient `acc / ns[0] / ns[1] / ...`, truncating at each step, each
/// intermediate quotient required to fit 64 bits. No `ns[i]` is zero here.
pub open spec fn fold_div(ns: Seq<int>, acc: int) -> Result<int, SpecEvalError>
    decreases ns.len(),
{
    if ns.len() == 0 {
        Ok(acc)
    } else if !in_i64(trunc_div(acc, ns[0])) {
        Err(SpecEvalError::Overflow)
    } else {
        fold_div(ns.subrange(1, ns.len() as int), trunc_div(acc, ns[0]))
    }
}

/// Whether some element of `ns` is zero.
pub open spec fn has_zero(ns: Seq<int>) -> bool {
    exists|i: int| 0 <= i < ns.len() && ns[i] == 0
}

/// An arithmetic builtin applied to its arguments.
///
/// Every argument must be a number; the error carries the first that is
/// not. `+` sums the operands, `-` subtracts every operand from zero (so one
/// operand is negated), `*` multiplies, and `/` divides the first operand by
/// each of the rest, truncating; any zero operand of `/` is refused, and so
/// is `/` with no operand at all.
pub open spec fn spec_arith(op: Builtin, args: Seq<SpecValue>) -> Result<
    SpecValue,
    SpecEvalError,
> {
    match first_non_num(args) {
        Some(v) => Err(SpecEvalError::NonNumber(v)),
        None => {
            let ns = nums_of(args);
            let folded = if op == Builtin::Add {
                fold_add(ns, 0)
            } else if op == Builtin::Sub {
                fold_sub(ns, 0)
            } else if op == Builtin::Mul {
                fold_mul(ns, 1)
            } else {
                if has_zero(ns) {
                    Err(SpecEvalError::DivisionByZero)
                } else if ns.len() == 0 {
                    Err(SpecEvalError::MissingArguments)
                } else {
                    fold_div(ns.subrange(1, ns.len() as int), ns[0])
                }
            };
            match folded {
                Ok(n) => Ok(SpecValue::Num(n)),
                Err(e) => Err(e),
            }
        },
    }
}

/// The name of a symbol value, if it is one.
pub open spec fn first_non_sym(syms: Seq<SpecValue>) -> Option<SpecValue>
    decreases syms.len(),
{
    if syms.len() == 0 {
        None
    } else if !(syms[0] is Sym) {
        Some(syms[0])
    } else {
        first_non_sym(syms.subrange(1, syms.len() as int))
    }
}

/// `syms` and `vals` paired up positionally and inserted left to right;
/// the shorter side ends the pairing. Every element of `syms` is a symbol.
pub open spec fn bind_syms(syms: Seq<SpecValue>, vals: Seq<SpecValue>, env: SpecEnv) -> SpecEnv
    decreases syms.len(),
{
    if syms.len() == 0 || vals.len() == 0 {
        env
    } else {
        bind_syms(
            syms.subrange(1, syms.len() as int),
            vals.subrange(1, vals.len() as int),
            env.insert(syms[0]->Sym_0, vals[0]),
        )
    }
}

/// `def` applied to its arguments: the first must be a literal list of
/// symbols, which are bound positionally to the remaining arguments. The
/// result is the `eval` builtin — an arbitrary but fixed sentinel of the
/// language, not a statement about the bindings.
pub open spec fn spec_def(args: Seq<SpecValue>, env: SpecEnv) -> SpecEvalResult {
    if args.len() == 0 {
        (Err(SpecEvalError::MissingArguments), env)
    } else {
        match args[0] {
            SpecValue::List(syms) => {
                if first_non_sym(syms) is Some {
                    (Err(SpecEvalError::NotASymbol), env)
                } else if syms.len() == 0 {
                    (Err(SpecEvalError::MissingArguments), env)
                } else {
                    (
                        Ok(SpecValue::Fun(Builtin::Eval)),
                        bind_syms(syms, args.subrange(1, args.len() as int), env),
                    )
                }
            },
            _ => (Err(SpecEvalError::WrongType("def"@)), env),
        }
    }
}

/// A builtin applied to already-evaluated arguments.
///
/// `list` wraps the arguments into a literal list. `head`, `tail` and
/// `eval` take exactly one argument, a literal list. `join` takes literal
/// lists; handed a single literal list it joins that list's elements (the
/// calling convention of the evaluator, where `join {{a} {b}}` arrives as
/// one list-of-lists). `eval` re-reads the list as a call expression and
/// evaluates it, spending one unit of fuel.
pub open spec fn spec_apply(op: Builtin, args: Seq<SpecValue>, env: SpecEnv, fuel: nat) -> (r:
    SpecEvalResult)
    decreases fuel, args, 3int,
{
    match op {
        Builtin::List => (Ok(SpecValue::List(args)), env),
        Builtin::Head => {
            if args.len() == 1 && args[0] is List {
                (spec_head(args[0]->List_0), env)
            } else {
                (Err(SpecEvalError::WrongType("head"@)), env)
            }
        },
        Builtin::Tail => {
            if args.len() == 1 && args[0] is List {
                (spec_tail(args[0]->List_0), env)
            } else {
                (Err(SpecEvalError::WrongType("tail"@)), env)
            }
        },
        Builtin::Join => {
            if args.len() == 1 && args[0] is List {
                (spec_join(args[0]->List_0), env)
            } else {
                (spec_join(args), env)
            }
        },
        Builtin::Eval => {
            if args.len() == 1 && args[0] is List {
                if fuel == 0 {
                    (Err(SpecEvalError::DepthLimit), env)
                } else {
                    spec_eval(SpecValue::Call(args[0]->List_0), env, (fuel - 1) as nat)
                }
            } else {
                (Err(SpecEvalError::WrongType("eval"@)), env)
            }
        },
        Builtin::Def => spec_def(args, env),
        _ => (spec_arith(op, args), env),
    }
}

/// A fully evaluated call expression reduced to its result: empty stays an
/// empty call expression, a single value stands for itself, and otherwise
/// the first value must be a builtin, applied to the rest.
pub open spec fn spec_finish(rs: Seq<SpecValue>, env: SpecEnv, fuel: nat) -> SpecEvalResult
    decreases fuel, rs, 2int,
{
    if rs.len() == 0 {
        (Ok(SpecValue::Call(Seq::empty())), env)
    } else if rs.len() == 1 {
        (Ok(rs[0]), env)
    } else {
        match rs[0] {
            SpecValue::Fun(op) => spec_apply(op, rs.subrange(1, rs.len() as int), env, fuel),
            _ => (Err(SpecEvalError::NotAFunction), env),
        }
    }
}

/// One value evaluated against an environment.
///
/// A symbol is looked up; a number, a literal list and a builtin stand for
/// themselves; a call expression evaluates its elements left to right
/// (stopping at the first failure) and is then reduced by [`spec_finish`].
/// Entering a call expression spends one unit of fuel.
pub open spec fn spec_eval(v: SpecValue, env: SpecEnv, fuel: nat) -> SpecEvalResult
    decreases fuel, v, 1int,
{
    match v {
        SpecValue::Sym(s) => {
            if env.contains_key(s) {
                (Ok(env[s]), env)
            } else {
                (Err(SpecEvalError::UnboundSymbol(s)), env)
            }
        },
        SpecValue::Call(elems) => {
            if fuel == 0 {
                (Err(SpecEvalError::DepthLimit), env)
            } else {
                let (r, env1) = spec_eval_elems(elems, env, (fuel - 1) as nat);
                match r {
                    Ok(rs) => spec_finish(rs, env1, (fuel - 1) as nat),
                    Err(e) => (Err(e), env1),
                }
            }
        },
        _ => (Ok(v), env),
    }
}

/// A sequence of values evaluated left to right, threading the environment;
/// the first failure stops the walk and is the result.
pub open spec fn spec_eval_elems(vs: Seq<SpecValue>, env: SpecEnv, fuel: nat) -> (r: (
    Result<Seq<SpecValue>, SpecEvalError>,
    SpecEnv,
))
    decreases fuel, vs, 0int,
{
    if vs.len() == 0 {
        (Ok(Seq::empty()), env)
    } else {
        let (r0, env1) = spec_eval(vs[0], env, fuel);
        match r0 {
            Ok(v0) => {
                let (rr, env2) = spec_eval_elems(vs.subrange(1, vs.len() as int), env1, fuel);
                match rr {
                    Ok(rest) => (Ok(seq![v0] + rest), env2),
                    Err(e) => (Err(e), env2),
                }
            },
            Err(e) => (Err(e), env1),
        }
    }
}

} // verus!
