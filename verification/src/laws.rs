//! General properties of the language, proved once and for all.

use vstd::prelude::*;

use crate::environment::SpecEnv;
use crate::eval_error::SpecEvalError;
use crate::function::Builtin;
use crate::semantics::{
    fold_add, fold_mul, fold_sub, has_zero, spec_apply, spec_arith, spec_def, spec_eval,
    spec_eval_elems, spec_finish, spec_head, spec_join, spec_join_elems, spec_tail,
};
use crate::value::SpecValue;

verus! {

/// The sum of a sequence of integers.
pub open spec fn sum_of(ns: Seq<int>) -> int
    decreases ns.len(),
{
    if ns.len() == 0 {
        0
    } else {
        ns[0] + sum_of(ns.subrange(1, ns.len() as int))
    }
}

/// The product of a sequence of integers.
pub open spec fn product_of(ns: Seq<int>) -> int
    decreases ns.len(),
{
    if ns.len() == 0 {
        1
    } else {
        ns[0] * product_of(ns.subrange(1, ns.len() as int))
    }
}

/// Whatever sum the bounded fold returns is the mathematical sum: machine
/// addition agrees with integer addition whenever it does not overflow.
pub proof fn lemma_fold_add_is_sum(ns: Seq<int>, acc: int)
    ensures
        fold_add(ns, acc) is Ok ==> fold_add(ns, acc) == Ok::<int, SpecEvalError>(
            acc + sum_of(ns),
        ),
    decreases ns.len(),
{
    if ns.len() > 0 {
        lemma_fold_add_is_sum(ns.subrange(1, ns.len() as int), acc + ns[0]);
    }
}

/// Whatever difference the bounded fold returns is the mathematical
/// difference of `acc` and the sum.
pub proof fn lemma_fold_sub_is_sum(ns: Seq<int>, acc: int)
    ensures
        fold_sub(ns, acc) is Ok ==> fold_sub(ns, acc) == Ok::<int, SpecEvalError>(
            acc - sum_of(ns),
        ),
    decreases ns.len(),
{
    if ns.len() > 0 {
        lemma_fold_sub_is_sum(ns.subrange(1, ns.len() as int), acc - ns[0]);
    }
}

/// Whatever product the bounded fold returns is the mathematical product:
/// machine multiplication agrees with integer multiplication whenever it
/// does not overflow.
pub proof fn lemma_fold_mul_is_product(ns: Seq<int>, acc: int)
    ensures
        fold_mul(ns, acc) is Ok ==> fold_mul(ns, acc) == Ok::<int, SpecEvalError>(
            acc * product_of(ns),
        ),
    decreases ns.len(),
{
    if ns.len() > 0 {
        lemma_fold_mul_is_product(ns.subrange(1, ns.len() as int), acc * ns[0]);
        if fold_mul(ns, acc) is Ok {
            assert((acc * ns[0]) * product_of(ns.subrange(1, ns.len() as int)) == acc * (ns[0]
                * product_of(ns.subrange(1, ns.len() as int)))) by (nonlinear_arith);
        }
    }
}

/// Arithmetic agrees with the integers: whatever an arithmetic builtin
/// returns on numbers is the mathematical sum, the negated sum, the
/// product, or the truncated quotient chain of its operands.
pub proof fn lemma_arith_standard(op: Builtin, args: Seq<SpecValue>)
    requires
        forall|j: int| 0 <= j < args.len() ==> (#[trigger] args[j]) is Num,
    ensures
        op == Builtin::Add && spec_arith(op, args) is Ok ==> spec_arith(op, args) == Ok::<
            _,
            SpecEvalError,
        >(SpecValue::Num(sum_of(crate::semantics::nums_of(args)))),
        op == Builtin::Sub && spec_arith(op, args) is Ok ==> spec_arith(op, args) == Ok::<
            _,
            SpecEvalError,
        >(SpecValue::Num(0 - sum_of(crate::semantics::nums_of(args)))),
        op == Builtin::Mul && spec_arith(op, args) is Ok ==> spec_arith(op, args) == Ok::<
            _,
            SpecEvalError,
        >(SpecValue::Num(product_of(crate::semantics::nums_of(args)))),
{
    lemma_all_num_no_witness(args);
    let ns = crate::semantics::nums_of(args);
    lemma_fold_add_is_sum(ns, 0);
    lemma_fold_sub_is_sum(ns, 0);
    lemma_fold_mul_is_product(ns, 1);
}

/// Dividing one number by another, neither zero, truncates toward zero.
pub proof fn lemma_div_pair(a: int, b: int)
    requires
        a != 0,
        b != 0,
        crate::semantics::in_i64(crate::semantics::trunc_div(a, b)),
    ensures
        spec_arith(Builtin::Div, seq![SpecValue::Num(a), SpecValue::Num(b)]) == Ok::<
            _,
            SpecEvalError,
        >(SpecValue::Num(crate::semantics::trunc_div(a, b))),
{
    let args = seq![SpecValue::Num(a), SpecValue::Num(b)];
    lemma_all_num_no_witness(args);
    let ns = crate::semantics::nums_of(args);
    assert(ns.len() == 2 && ns[0] == a && ns[1] == b);
    assert(!crate::semantics::has_zero(ns));
    let rest = ns.subrange(1, 2);
    assert(rest[0] == b);
    assert(rest.subrange(1, 1) =~= Seq::<int>::empty());
    let q = crate::semantics::trunc_div(a, b);
    assert(crate::semantics::fold_div(Seq::<int>::empty(), q) == Ok::<int, SpecEvalError>(q));
    assert(crate::semantics::fold_div(rest, a) == Ok::<int, SpecEvalError>(q));
}

/// A call expression of an arithmetic builtin over numbers evaluates to
/// exactly what the arithmetic says, and moves nothing in the environment.
pub proof fn lemma_numeric_call(op: Builtin, vs: Seq<SpecValue>, env: SpecEnv, fuel: nat)
    requires
        op == Builtin::Add || op == Builtin::Sub || op == Builtin::Mul || op == Builtin::Div,
        vs.len() >= 1,
        forall|j: int| 0 <= j < vs.len() ==> (#[trigger] vs[j]) is Num,
        fuel >= 1,
    ensures
        spec_eval(SpecValue::Call(seq![SpecValue::Fun(op)] + vs), env, fuel) == (
            match spec_arith(op, vs) {
                Ok(v) => Ok::<SpecValue, SpecEvalError>(v),
                Err(e) => Err::<SpecValue, SpecEvalError>(e),
            },
            env,
        ),
{
    let elems = seq![SpecValue::Fun(op)] + vs;
    assert(elems[0] == SpecValue::Fun(op));
    assert forall|j: int| 0 <= j < elems.len() implies self_eval(#[trigger] elems[j]) by {
        if j >= 1 {
            assert(elems[j] == vs[j - 1]);
        }
    }
    let f1 = (fuel - 1) as nat;
    lemma_elems_self_eval(elems, env, f1);
    assert(elems.len() == 1 + vs.len());
    let args = elems.subrange(1, elems.len() as int);
    assert(args =~= vs);
    assert(spec_eval(SpecValue::Call(elems), env, fuel) == spec_finish(elems, env, f1));
    assert(spec_finish(elems, env, f1) == spec_apply(op, vs, env, f1));
}

/// `/` with any zero operand is refused, whatever else the operands hold.
pub proof fn lemma_div_by_zero(args: Seq<SpecValue>, i: int)
    requires
        0 <= i < args.len(),
        args[i] == SpecValue::Num(0),
        forall|j: int| 0 <= j < args.len() ==> (#[trigger] args[j]) is Num,
    ensures
        spec_arith(Builtin::Div, args) == Err::<SpecValue, _>(SpecEvalError::DivisionByZero),
{
    lemma_all_num_no_witness(args);
    assert(crate::semantics::nums_of(args)[i] == 0);
    assert(has_zero(crate::semantics::nums_of(args)));
}

/// A sequence of numbers holds no first non-number.
proof fn lemma_all_num_no_witness(args: Seq<SpecValue>)
    requires
        forall|j: int| 0 <= j < args.len() ==> (#[trigger] args[j]) is Num,
    ensures
        crate::semantics::first_non_num(args) is None,
    decreases args.len(),
{
    if args.len() > 0 {
        let rest = args.subrange(1, args.len() as int);
        assert forall|j: int| 0 <= j < rest.len() implies (#[trigger] rest[j]) is Num by {
            assert(rest[j] == args[j + 1]);
        }
        lemma_all_num_no_witness(rest);
    }
}

/// A value that stands for itself: a number, a builtin or a literal list.
/// Every successful evaluation of a symbol-free value ends in one of these
/// (or in an empty call expression).
pub open spec fn self_eval(v: SpecValue) -> bool {
    v is Num || v is Fun || v is List
}

/// A self-standing value evaluates to itself and moves nothing, whatever
/// the environment and the fuel.
pub proof fn lemma_self_eval(v: SpecValue, env: SpecEnv, fuel: nat)
    requires
        self_eval(v),
    ensures
        spec_eval(v, env, fuel) == (Ok::<SpecValue, SpecEvalError>(v), env),
{
}

/// A sequence of self-standing values evaluates to itself and moves
/// nothing.
pub proof fn lemma_elems_self_eval(vs: Seq<SpecValue>, env: SpecEnv, fuel: nat)
    requires
        forall|i: int| 0 <= i < vs.len() ==> self_eval(#[trigger] vs[i]),
    ensures
        spec_eval_elems(vs, env, fuel) == (Ok::<Seq<SpecValue>, SpecEvalError>(vs), env),
    decreases vs.len(),
{
    if vs.len() == 0 {
        assert(vs =~= Seq::<SpecValue>::empty());
    } else {
        assert(self_eval(vs[0]));
        lemma_self_eval(vs[0], env, fuel);
        let rest = vs.subrange(1, vs.len() as int);
        assert forall|i: int| 0 <= i < rest.len() implies self_eval(#[trigger] rest[i]) by {
            assert(rest[i] == vs[i + 1]);
        }
        lemma_elems_self_eval(rest, env, fuel);
        assert(seq![vs[0]] + rest =~= vs);
        assert(spec_eval_elems(vs, env, fuel) == (
            Ok::<Seq<SpecValue>, SpecEvalError>(seq![vs[0]] + rest),
            env,
        ));
    }
}

/// `head` and `tail` on an empty list always fail with the empty-list
/// error; on a non-empty list `head` is its first element as a one-element
/// list and `tail` is the rest, so the two compose exactly when lengths
/// allow: the tail of a head is empty, and the head of a tail needs at
/// least two elements.
pub proof fn lemma_head_tail(xs: Seq<SpecValue>)
    ensures
        xs.len() == 0 ==> spec_head(xs) == Err::<SpecValue, _>(
            SpecEvalError::EmptyList("head"@),
        ) && spec_tail(xs) == Err::<SpecValue, _>(SpecEvalError::EmptyList("tail"@)),
        xs.len() > 0 ==> spec_head(xs) == Ok::<_, SpecEvalError>(
            SpecValue::List(seq![xs[0]]),
        ) && spec_tail(xs) == Ok::<_, SpecEvalError>(
            SpecValue::List(xs.subrange(1, xs.len() as int)),
        ),
        xs.len() > 0 ==> spec_tail(seq![xs[0]]) == Ok::<_, SpecEvalError>(
            SpecValue::List(Seq::empty()),
        ),
        xs.len() == 1 ==> spec_head(xs.subrange(1, xs.len() as int)) == Err::<SpecValue, _>(
            SpecEvalError::EmptyList("head"@),
        ),
        xs.len() >= 2 ==> spec_head(xs.subrange(1, xs.len() as int)) == Ok::<_, SpecEvalError>(
            SpecValue::List(seq![xs[1]]),
        ),
{
    if xs.len() > 0 {
        assert(seq![xs[0]].subrange(1, 1) =~= Seq::<SpecValue>::empty());
        if xs.len() >= 2 {
            assert(xs.subrange(1, xs.len() as int)[0] == xs[1]);
        }
    }
}

/// `head` and `tail` are defined only on literal lists: any other argument
/// shape is a wrong-type failure.
pub proof fn lemma_head_tail_wrong_type(v: SpecValue, env: SpecEnv, fuel: nat)
    requires
        !(v is List),
    ensures
        spec_apply(Builtin::Head, seq![v], env, fuel) == (
            Err::<SpecValue, _>(SpecEvalError::WrongType("head"@)),
            env,
        ),
        spec_apply(Builtin::Tail, seq![v], env, fuel) == (
            Err::<SpecValue, _>(SpecEvalError::WrongType("tail"@)),
            env,
        ),
{
}

/// Joining two lists concatenates their elements.
pub proof fn lemma_join_pair(a: Seq<SpecValue>, b: Seq<SpecValue>)
    ensures
        spec_join(seq![SpecValue::List(a), SpecValue::List(b)]) == Ok::<_, SpecEvalError>(
            SpecValue::List(a + b),
        ),
{
    let items = seq![SpecValue::List(a), SpecValue::List(b)];
    let rest = items.subrange(1, 2);
    assert(rest[0] == SpecValue::List(b));
    let rest2 = rest.subrange(1, 1);
    assert(rest2 =~= Seq::<SpecValue>::empty());
    assert(spec_join_elems(rest2) == Ok::<Seq<SpecValue>, SpecEvalError>(Seq::empty()));
    assert(spec_join_elems(rest) == Ok::<Seq<SpecValue>, SpecEvalError>(b + Seq::empty()));
    assert(b + Seq::<SpecValue>::empty() =~= b);
    assert(spec_join_elems(items) == Ok::<Seq<SpecValue>, SpecEvalError>(a + b));
}

/// `join` is associative: joining a pair and then the third list, on either
/// side, flattens to the same element sequence.
pub proof fn lemma_join_associative(a: Seq<SpecValue>, b: Seq<SpecValue>, c: Seq<SpecValue>)
    ensures
        spec_join(seq![SpecValue::List(a + b), SpecValue::List(c)]) == Ok::<_, SpecEvalError>(
            SpecValue::List(a + b + c),
        ),
        spec_join(seq![SpecValue::List(a), SpecValue::List(b + c)]) == Ok::<_, SpecEvalError>(
            SpecValue::List(a + b + c),
        ),
{
    lemma_join_pair(a + b, c);
    lemma_join_pair(a, b + c);
    assert(a + (b + c) =~= a + b + c);
}

/// `def {x} v` binds `x` to `v` — overwriting any earlier binding — and a
/// later lookup of `x` yields exactly `v`; the `def` itself returns the
/// `eval` builtin, the language's fixed sentinel for a definition.
pub proof fn lemma_def_then_lookup(name: Seq<char>, v: SpecValue, env: SpecEnv, fuel: nat)
    ensures
        spec_def(seq![SpecValue::List(seq![SpecValue::Sym(name)]), v], env) == (
            Ok::<SpecValue, SpecEvalError>(SpecValue::Fun(Builtin::Eval)),
            env.insert(name, v),
        ),
        spec_eval(SpecValue::Sym(name), env.insert(name, v), fuel) == (
            Ok::<SpecValue, SpecEvalError>(v),
            env.insert(name, v),
        ),
{
    let args = seq![SpecValue::List(seq![SpecValue::Sym(name)]), v];
    let syms = seq![SpecValue::Sym(name)];
    assert(args[0] == SpecValue::List(syms));
    assert(syms[0] == SpecValue::Sym(name));
    assert(syms.subrange(1, 1) =~= Seq::<SpecValue>::empty());
    assert(crate::semantics::first_non_sym(Seq::<SpecValue>::empty()) is None);
    assert(crate::semantics::first_non_sym(syms) is None);
    let vals = args.subrange(1, 2);
    assert(vals[0] == v);
    assert(syms.subrange(1, 1) =~= Seq::<SpecValue>::empty());
    assert(crate::semantics::bind_syms(syms, vals, env) == crate::semantics::bind_syms(
        syms.subrange(1, 1),
        vals.subrange(1, 1),
        env.insert(name, v),
    ));
}

/// Redefining a name overwrites the old binding: two `def`s of the same
/// name leave exactly the second value, not a stack of both.
pub proof fn lemma_def_overwrites(name: Seq<char>, v1: SpecValue, v2: SpecValue, env: SpecEnv)
    ensures
        env.insert(name, v1).insert(name, v2) == env.insert(name, v2),
        env.insert(name, v1).insert(name, v2)[name] == v2,
{
    assert(env.insert(name, v1).insert(name, v2) =~= env.insert(name, v2));
}

/// Binding never removes a key.
proof fn lemma_bind_syms_grows(syms: Seq<SpecValue>, vals: Seq<SpecValue>, env: SpecEnv)
    ensures
        forall|k: Seq<char>|
            env.contains_key(k) ==> #[trigger] crate::semantics::bind_syms(
                syms,
                vals,
                env,
            ).contains_key(k),
    decreases syms.len(),
{
    if syms.len() > 0 && vals.len() > 0 {
        let env1 = env.insert(syms[0]->Sym_0, vals[0]);
        let srest = syms.subrange(1, syms.len() as int);
        let vrest = vals.subrange(1, vals.len() as int);
        lemma_bind_syms_grows(srest, vrest, env1);
        assert forall|k: Seq<char>|
            env.contains_key(k) implies #[trigger] crate::semantics::bind_syms(
            syms,
            vals,
            env,
        ).contains_key(k) by {
            assert(env1.contains_key(k));
            assert(crate::semantics::bind_syms(srest, vrest, env1).contains_key(k));
        }
    }
}

/// Evaluation never unbinds a name: the environment only grows, by the
/// insertions that `def` makes.
pub proof fn lemma_eval_env_grows(v: SpecValue, env: SpecEnv, fuel: nat)
    ensures
        forall|k: Seq<char>|
            env.contains_key(k) ==> #[trigger] spec_eval(v, env, fuel).1.contains_key(k),
    decreases fuel, v, 1int,
{
    if v is Call && fuel > 0 {
        let elems = v->Call_0;
        lemma_eval_elems_env_grows(elems, env, (fuel - 1) as nat);
        let (r, env1) = spec_eval_elems(elems, env, (fuel - 1) as nat);
        if r is Ok {
            lemma_finish_env_grows(r->Ok_0, env1, (fuel - 1) as nat);
        }
        assert forall|k: Seq<char>|
            env.contains_key(k) implies #[trigger] spec_eval(v, env, fuel).1.contains_key(k) by {
            assert(spec_eval_elems(elems, env, (fuel - 1) as nat).1.contains_key(k));
            if r is Ok {
                assert(spec_finish(r->Ok_0, env1, (fuel - 1) as nat).1.contains_key(k));
            }
        }
    }
}

/// Evaluating a sequence never unbinds a name.
proof fn lemma_eval_elems_env_grows(vs: Seq<SpecValue>, env: SpecEnv, fuel: nat)
    ensures
        forall|k: Seq<char>|
            env.contains_key(k) ==> #[trigger] spec_eval_elems(vs, env, fuel).1.contains_key(k),
    decreases fuel, vs, 0int,
{
    if vs.len() > 0 {
        lemma_eval_env_grows(vs[0], env, fuel);
        let (r0, env1) = spec_eval(vs[0], env, fuel);
        if r0 is Ok {
            lemma_eval_elems_env_grows(vs.subrange(1, vs.len() as int), env1, fuel);
        }
        assert forall|k: Seq<char>|
            env.contains_key(k) implies #[trigger] spec_eval_elems(
            vs,
            env,
            fuel,
        ).1.contains_key(k) by {
            assert(spec_eval(vs[0], env, fuel).1.contains_key(k));
            if r0 is Ok {
                assert(spec_eval_elems(
                    vs.subrange(1, vs.len() as int),
                    env1,
                    fuel,
                ).1.contains_key(k));
            }
        }
    }
}

/// Reducing an evaluated call expression never unbinds a name.
proof fn lemma_finish_env_grows(rs: Seq<SpecValue>, env: SpecEnv, fuel: nat)
    ensures
        forall|k: Seq<char>|
            env.contains_key(k) ==> #[trigger] spec_finish(rs, env, fuel).1.contains_key(k),
    decreases fuel, rs, 2int,
{
    if rs.len() > 1 && rs[0] is Fun {
        lemma_apply_env_grows(rs[0]->Fun_0, rs.subrange(1, rs.len() as int), env, fuel);
        assert forall|k: Seq<char>|
            env.contains_key(k) implies #[trigger] spec_finish(rs, env, fuel).1.contains_key(
            k,
        ) by {
            assert(spec_apply(
                rs[0]->Fun_0,
                rs.subrange(1, rs.len() as int),
                env,
                fuel,
            ).1.contains_key(k));
        }
    }
}

/// Applying a builtin never unbinds a name.
proof fn lemma_apply_env_grows(op: Builtin, args: Seq<SpecValue>, env: SpecEnv, fuel: nat)
    ensures
        forall|k: Seq<char>|
            env.contains_key(k) ==> #[trigger] spec_apply(op, args, env, fuel).1.contains_key(k),
    decreases fuel, args, 3int,
{
    match op {
        Builtin::Eval => {
            if args.len() == 1 && args[0] is List && fuel > 0 {
                lemma_eval_env_grows(SpecValue::Call(args[0]->List_0), env, (fuel - 1) as nat);
                assert forall|k: Seq<char>|
                    env.contains_key(k) implies #[trigger] spec_apply(
                    op,
                    args,
                    env,
                    fuel,
                ).1.contains_key(k) by {
                    assert(spec_eval(
                        SpecValue::Call(args[0]->List_0),
                        env,
                        (fuel - 1) as nat,
                    ).1.contains_key(k));
                }
            }
        },
        Builtin::Def => {
            if args.len() > 0 && args[0] is List {
                let syms = args[0]->List_0;
                if crate::semantics::first_non_sym(syms) is None && syms.len() > 0 {
                    lemma_bind_syms_grows(syms, args.subrange(1, args.len() as int), env);
                    assert forall|k: Seq<char>|
                        env.contains_key(k) implies #[trigger] spec_apply(
                        op,
                        args,
                        env,
                        fuel,
                    ).1.contains_key(k) by {
                        assert(crate::semantics::bind_syms(
                            syms,
                            args.subrange(1, args.len() as int),
                            env,
                        ).contains_key(k));
                    }
                }
            }
        },
        _ => {},
    }
}

/// A value in normal form: one that stands for itself, or the empty call
/// expression (which reduces to itself whenever any fuel is left).
pub open spec fn normal(v: SpecValue) -> bool {
    self_eval(v) || v == SpecValue::Call(Seq::<SpecValue>::empty())
}

/// An environment every value of which is in normal form — what any
/// environment reachable from the initial one looks like, since `def` only
/// ever stores evaluated values.
pub open spec fn env_normal(env: SpecEnv) -> bool {
    forall|k: Seq<char>| env.contains_key(k) ==> normal(#[trigger] env[k])
}

/// The initial environment is normal: it holds builtins only.
pub proof fn lemma_initial_env_normal()
    ensures
        env_normal(crate::environment::initial_env()),
{
}

/// Binding normal values keeps the environment normal.
proof fn lemma_bind_syms_normal(syms: Seq<SpecValue>, vals: Seq<SpecValue>, env: SpecEnv)
    requires
        env_normal(env),
        forall|i: int| 0 <= i < vals.len() ==> normal(#[trigger] vals[i]),
    ensures
        env_normal(crate::semantics::bind_syms(syms, vals, env)),
    decreases syms.len(),
{
    if syms.len() > 0 && vals.len() > 0 {
        assert(normal(vals[0]));
        let env1 = env.insert(syms[0]->Sym_0, vals[0]);
        assert forall|k: Seq<char>| env1.contains_key(k) implies normal(#[trigger] env1[k]) by {
            if k != syms[0]->Sym_0 {
                assert(env1[k] == env[k]);
            }
        }
        let vrest = vals.subrange(1, vals.len() as int);
        assert forall|i: int| 0 <= i < vrest.len() implies normal(#[trigger] vrest[i]) by {
            assert(vrest[i] == vals[i + 1]);
        }
        lemma_bind_syms_normal(syms.subrange(1, syms.len() as int), vrest, env1);
    }
}

/// Whatever evaluation returns is in normal form, and it leaves the
/// environment normal: `def` can only store values that evaluation already
/// produced.
pub proof fn lemma_eval_normal(v: SpecValue, env: SpecEnv, fuel: nat)
    requires
        env_normal(env),
    ensures
        ({
            let (r, env2) = spec_eval(v, env, fuel);
            &&& (r is Ok ==> normal(r->Ok_0))
            &&& env_normal(env2)
        }),
    decreases fuel, v, 1int,
{
    match v {
        SpecValue::Sym(s) => {
            if env.contains_key(s) {
                assert(normal(env[s]));
            }
        },
        SpecValue::Call(elems) => {
            if fuel > 0 {
                lemma_eval_elems_normal(elems, env, (fuel - 1) as nat);
                let (r, env1) = spec_eval_elems(elems, env, (fuel - 1) as nat);
                if r is Ok {
                    lemma_finish_normal(r->Ok_0, env1, (fuel - 1) as nat);
                }
            }
        },
        _ => {},
    }
}

/// Every value that evaluating a sequence returns is in normal form, and
/// the environment stays normal throughout.
pub proof fn lemma_eval_elems_normal(vs: Seq<SpecValue>, env: SpecEnv, fuel: nat)
    requires
        env_normal(env),
    ensures
        ({
            let (r, env2) = spec_eval_elems(vs, env, fuel);
            &&& env_normal(env2)
            &&& (r is Ok ==> r->Ok_0.len() == vs.len() && forall|i: int|
                0 <= i < r->Ok_0.len() ==> normal(#[trigger] r->Ok_0[i]))
        }),
    decreases fuel, vs, 0int,
{
    if vs.len() > 0 {
        lemma_eval_normal(vs[0], env, fuel);
        let (r0, env1) = spec_eval(vs[0], env, fuel);
        if r0 is Ok {
            let rest = vs.subrange(1, vs.len() as int);
            lemma_eval_elems_normal(rest, env1, fuel);
            let (rr, env2) = spec_eval_elems(rest, env1, fuel);
            if rr is Ok {
                let whole = seq![r0->Ok_0] + rr->Ok_0;
                assert forall|i: int| 0 <= i < whole.len() implies normal(
                    #[trigger] whole[i],
                ) by {
                    if i > 0 {
                        assert(whole[i] == rr->Ok_0[i - 1]);
                    }
                }
            }
        }
    }
}

/// Whatever the reduction of a fully evaluated call expression returns is
/// in normal form, and the environment stays normal.
pub proof fn lemma_finish_normal(rs: Seq<SpecValue>, env: SpecEnv, fuel: nat)
    requires
        env_normal(env),
        forall|i: int| 0 <= i < rs.len() ==> normal(#[trigger] rs[i]),
    ensures
        ({
            let (r, env2) = spec_finish(rs, env, fuel);
            &&& (r is Ok ==> normal(r->Ok_0))
            &&& env_normal(env2)
        }),
    decreases fuel, rs, 2int,
{
    if rs.len() == 1 {
        assert(normal(rs[0]));
    } else if rs.len() > 1 && rs[0] is Fun {
        let args = rs.subrange(1, rs.len() as int);
        assert forall|i: int| 0 <= i < args.len() implies normal(#[trigger] args[i]) by {
            assert(args[i] == rs[i + 1]);
        }
        lemma_apply_normal(rs[0]->Fun_0, args, env, fuel);
    }
}

/// Whatever a builtin returns is in normal form, and the environment stays
/// normal: `def` only inserts the normal values it was handed.
pub proof fn lemma_apply_normal(op: Builtin, args: Seq<SpecValue>, env: SpecEnv, fuel: nat)
    requires
        env_normal(env),
        forall|i: int| 0 <= i < args.len() ==> normal(#[trigger] args[i]),
    ensures
        ({
            let (r, env2) = spec_apply(op, args, env, fuel);
            &&& (r is Ok ==> normal(r->Ok_0))
            &&& env_normal(env2)
        }),
    decreases fuel, args, 3int,
{
    match op {
        Builtin::Eval => {
            if args.len() == 1 && args[0] is List && fuel > 0 {
                lemma_eval_normal(SpecValue::Call(args[0]->List_0), env, (fuel - 1) as nat);
            }
        },
        Builtin::Def => {
            if args.len() > 0 && args[0] is List {
                let syms = args[0]->List_0;
                if crate::semantics::first_non_sym(syms) is None && syms.len() > 0 {
                    let vals = args.subrange(1, args.len() as int);
                    assert forall|i: int| 0 <= i < vals.len() implies normal(
                        #[trigger] vals[i],
                    ) by {
                        assert(vals[i] == args[i + 1]);
                    }
                    lemma_bind_syms_normal(syms, vals, env);
                }
            }
        },
        _ => {},
    }
}

/// A sequence of normal values evaluates to itself and moves nothing, as
/// long as any fuel is left for the empty call expressions among them.
pub proof fn lemma_elems_normal_eval(vs: Seq<SpecValue>, env: SpecEnv, fuel: nat)
    requires
        forall|i: int| 0 <= i < vs.len() ==> normal(#[trigger] vs[i]),
        fuel >= 1,
    ensures
        spec_eval_elems(vs, env, fuel) == (Ok::<Seq<SpecValue>, SpecEvalError>(vs), env),
    decreases vs.len(),
{
    if vs.len() == 0 {
        assert(vs =~= Seq::<SpecValue>::empty());
    } else {
        assert(normal(vs[0]));
        if !self_eval(vs[0]) {
            assert(spec_eval(vs[0], env, fuel) == (
                Ok::<SpecValue, SpecEvalError>(vs[0]),
                env,
            ));
        } else {
            lemma_self_eval(vs[0], env, fuel);
        }
        let rest = vs.subrange(1, vs.len() as int);
        assert forall|i: int| 0 <= i < rest.len() implies normal(#[trigger] rest[i]) by {
            assert(rest[i] == vs[i + 1]);
        }
        lemma_elems_normal_eval(rest, env, fuel);
        assert(seq![vs[0]] + rest =~= vs);
        assert(spec_eval_elems(vs, env, fuel) == (
            Ok::<Seq<SpecValue>, SpecEvalError>(seq![vs[0]] + rest),
            env,
        ));
    }
}

/// The full round trip of a call expression through `list` and `eval`:
/// evaluate the elements of any call expression; `list` packs exactly those
/// results into a literal list; `eval` of that list reduces them exactly as
/// the original call expression would have, fuel bounds aside.
pub proof fn lemma_list_then_eval(elems: Seq<SpecValue>, env: SpecEnv, fuel: nat, g: nat)
    requires
        env_normal(env),
        fuel >= 1,
        g >= 3,
        spec_eval_elems(elems, env, (fuel - 1) as nat).0 is Ok,
    ensures
        ({
            let (r, env1) = spec_eval_elems(elems, env, (fuel - 1) as nat);
            let rs = r->Ok_0;
            &&& spec_eval(SpecValue::Call(elems), env, fuel) == spec_finish(
                rs,
                env1,
                (fuel - 1) as nat,
            )
            &&& spec_apply(Builtin::List, rs, env1, g) == (
                Ok::<SpecValue, SpecEvalError>(SpecValue::List(rs)),
                env1,
            )
            &&& spec_apply(Builtin::Eval, seq![SpecValue::List(rs)], env1, g) == spec_eval(
                SpecValue::Call(rs),
                env1,
                (g - 1) as nat,
            )
            &&& spec_eval(SpecValue::Call(rs), env1, (g - 1) as nat) == spec_finish(
                rs,
                env1,
                (g - 2) as nat,
            )
        }),
{
    lemma_eval_elems_normal(elems, env, (fuel - 1) as nat);
    let (r, env1) = spec_eval_elems(elems, env, (fuel - 1) as nat);
    let rs = r->Ok_0;
    let one = seq![SpecValue::List(rs)];
    assert(one.len() == 1);
    assert(one[0] == SpecValue::List(rs));
    lemma_elems_normal_eval(rs, env1, (g - 2) as nat);
}

/// The round trip through a literal list: `list` wraps already-evaluated
/// values into a list, and `eval` of that list reduces exactly as the call
/// expression of those values does — with two units of fuel spent on the
/// wrapping call and the re-entry.
pub proof fn lemma_list_eval_round_trip(rs: Seq<SpecValue>, env: SpecEnv, fuel: nat)
    requires
        forall|i: int| 0 <= i < rs.len() ==> self_eval(#[trigger] rs[i]),
        fuel >= 2,
    ensures
        spec_apply(Builtin::List, rs, env, fuel) == (
            Ok::<SpecValue, SpecEvalError>(SpecValue::List(rs)),
            env,
        ),
        spec_eval(
            SpecValue::Call(seq![SpecValue::Fun(Builtin::Eval), SpecValue::List(rs)]),
            env,
            fuel,
        ) == spec_eval(SpecValue::Call(rs), env, (fuel - 2) as nat),
        fuel >= 3 ==> spec_eval(SpecValue::Call(rs), env, (fuel - 2) as nat) == spec_finish(
            rs,
            env,
            (fuel - 3) as nat,
        ),
{
    let outer = seq![SpecValue::Fun(Builtin::Eval), SpecValue::List(rs)];
    assert(outer.len() == 2);
    assert(outer[0] == SpecValue::Fun(Builtin::Eval));
    assert(outer[1] == SpecValue::List(rs));
    assert forall|i: int| 0 <= i < outer.len() implies self_eval(#[trigger] outer[i]) by {}
    lemma_elems_self_eval(outer, env, (fuel - 1) as nat);
    let args1 = outer.subrange(1, 2);
    assert(args1.len() == 1);
    assert(args1[0] == SpecValue::List(rs));
    let f1 = (fuel - 1) as nat;
    assert(spec_eval(SpecValue::Call(outer), env, fuel) == spec_finish(outer, env, f1));
    assert(spec_finish(outer, env, f1) == spec_apply(Builtin::Eval, args1, env, f1));
    assert(spec_apply(Builtin::Eval, args1, env, f1) == spec_eval(
        SpecValue::Call(rs),
        env,
        (fuel - 2) as nat,
    ));
    if fuel >= 3 {
        lemma_elems_self_eval(rs, env, (fuel - 3) as nat);
        assert(spec_eval(SpecValue::Call(rs), env, (fuel - 2) as nat) == spec_finish(
            rs,
            env,
            (fuel - 3) as nat,
        ));
    }
}

} // verus!
