//! Scenarios of the language's own rules: arithmetic, list structure,
//! definitions, error reporting and the edges of the grammar.

use pils::builtin;
use pils::environment::Environment;
use pils::eval_error::EvalError;
use pils::process;
use pils::process_str;
use pils::qexpr::Qexpr;
use pils::sexpr::Sexpr;
use pils::value::Value;

#[test]
fn addition_sums() {
    let mut env = Environment::default();
    assert_eq!(process_str("+ 1 2 3", &mut env), "6");
}

#[test]
fn subtraction_negates_the_sum() {
    let mut env = Environment::default();
    assert_eq!(process_str("- 5", &mut env), "-5");
    assert_eq!(process_str("- 1 2 3", &mut env), "-6");
}

#[test]
fn division_truncates_toward_zero() {
    let mut env = Environment::default();
    assert_eq!(process_str("/ 7 2", &mut env), "3");
    assert_eq!(process_str("/ -7 2", &mut env), "-3");
    assert_eq!(process_str("/ 7 -2", &mut env), "-3");
    assert_eq!(process_str("/ -7 -2", &mut env), "3");
}

#[test]
fn division_by_single_operand_is_identity() {
    let mut env = Environment::default();
    assert_eq!(process_str("/ 42", &mut env), "42");
}

#[test]
fn division_by_zero_anywhere_fails() {
    let mut env = Environment::default();
    assert_eq!(process_str("/ 12 0", &mut env), "Error: Division by zero");
    assert_eq!(process_str("/ 0 5", &mut env), "Error: Division by zero");
    assert_eq!(process_str("/ 0", &mut env), "Error: Division by zero");
}

#[test]
fn addition_overflow_is_reported() {
    let mut env = Environment::default();
    assert_eq!(process_str("+ 9223372036854775807 1", &mut env), "Error: Integer overflow");
}

#[test]
fn division_overflow_is_reported() {
    let mut env = Environment::default();
    assert_eq!(process_str("/ -9223372036854775808 -1", &mut env), "Error: Integer overflow");
}

#[test]
fn number_too_large_fails_to_parse() {
    let mut env = Environment::default();
    assert_eq!(
        process_str("+ 99999999999999999999 1", &mut env),
        "Error: Failed to parse number from 99999999999999999999"
    );
}

#[test]
fn extreme_numbers_parse() {
    let mut env = Environment::default();
    assert_eq!(process_str("-9223372036854775808", &mut env), "-9223372036854775808");
    assert_eq!(process_str("9223372036854775807", &mut env), "9223372036854775807");
    assert_eq!(process_str("9223372036854775808", &mut env), "Error: Failed to parse number from 9223372036854775808");
}

#[test]
fn unbalanced_delimiters_fail_to_parse() {
    let mut env = Environment::default();
    assert_eq!(process_str("( + 1 2", &mut env), "Error: Failed to parse input ( + 1 2");
    assert_eq!(process_str(") 1", &mut env), "Error: Failed to parse input ) 1");
    assert_eq!(process_str("{ 1 )", &mut env), "Error: Failed to parse input { 1 )");
}

#[test]
fn empty_input_is_an_empty_call() {
    let mut env = Environment::default();
    assert_eq!(process_str("", &mut env), "(  )");
    assert_eq!(process_str("()", &mut env), "(  )");
    assert_eq!(process_str("{}", &mut env), "{  }");
}

#[test]
fn surrounding_whitespace_is_ignored() {
    let mut env = Environment::default();
    assert_eq!(process_str("  \t + 1 2 \t ", &mut env), "3");
}

#[test]
fn first_element_must_be_a_function() {
    let mut env = Environment::default();
    assert_eq!(process_str("1 2 3", &mut env), "Error: First element is not a function");
}

#[test]
fn head_requires_one_list() {
    let mut env = Environment::default();
    assert_eq!(process_str("head 5", &mut env), "Error: Wrong type passed to 'head'");
    assert_eq!(process_str("head {1} {2}", &mut env), "Error: Wrong type passed to 'head'");
}

#[test]
fn head_and_tail_of_empty_list_fail() {
    let mut env = Environment::default();
    assert_eq!(process_str("head {}", &mut env), "Error: Function 'head' passed {}");
    assert_eq!(process_str("tail {}", &mut env), "Error: Function 'tail' passed {}");
}

#[test]
fn head_then_tail_round() {
    let mut env = Environment::default();
    assert_eq!(process_str("tail (head {1 2 3})", &mut env), "{  }");
    assert_eq!(process_str("head (tail {1 2 3})", &mut env), "{ 2 }");
}

#[test]
fn join_of_several_lists_concatenates() {
    let mut env = Environment::default();
    assert_eq!(process_str("join {1 2} {3 4}", &mut env), "{ 1 2 3 4 }");
}

#[test]
fn join_of_one_list_of_lists_flattens_it() {
    let mut env = Environment::default();
    assert_eq!(process_str("join {{1 2}}", &mut env), "{ 1 2 }");
}

#[test]
fn join_associates() {
    let mut env = Environment::default();
    let left = process_str("join (join {1} {2}) {3}", &mut env);
    let right = process_str("join {1} (join {2} {3})", &mut env);
    assert_eq!(left, "{ 1 2 3 }");
    assert_eq!(left, right);
}

#[test]
fn join_of_one_flat_list_fails() {
    let mut env = Environment::default();
    assert_eq!(process_str("join {1 2}", &mut env), "Error: Wrong type passed to 'join'");
}

#[test]
fn list_then_eval_round_trips() {
    let mut env = Environment::default();
    assert_eq!(process_str("eval (list + 1 2)", &mut env), "3");
    assert_eq!(process_str("+ 1 2", &mut env), "3");
}

#[test]
fn def_binds_and_overwrites() {
    let mut env = Environment::default();
    assert_eq!(process_str("def {x} 100", &mut env), "<function>");
    assert_eq!(process_str("x", &mut env), "100");
    let _ = process_str("def {x} 200", &mut env);
    assert_eq!(process_str("x", &mut env), "200");
}

#[test]
fn def_refuses_non_symbols_and_empty_lists() {
    let mut env = Environment::default();
    assert_eq!(process_str("def {1} 2", &mut env), "Error: 'def' cannot define non-symbol");
    assert_eq!(process_str("def {}", &mut env), "Error: Missing arguments");
}

#[test]
fn self_made_cycle_is_cut_off() {
    let mut env = Environment::default();
    let _ = process_str("def {x} {eval x}", &mut env);
    assert_eq!(process_str("eval x", &mut env), "Error: Evaluation nested too deeply");
}

#[test]
fn arithmetic_on_non_numbers_fails() {
    let mut env = Environment::default();
    assert_eq!(
        process_str("+ 1 {2}", &mut env),
        "Error: Cannot operate on non-number: { 2 }"
    );
}

#[test]
fn invalid_operator_is_reported() {
    let operands = Sexpr(vec![Value::Num(1), Value::Num(2)]);
    let result = operands.op("%").unwrap_err();
    assert_eq!(result, EvalError::InvalidOperator("%".to_string()));
}

#[test]
fn builtins_work_on_direct_lists() {
    let mut env = Environment::default();
    let first = builtin::head(
        Value::Qexpr(Qexpr(vec![Value::Num(7), Value::Num(8)])),
        &mut env,
    )
    .unwrap();
    assert_eq!(first, Value::Qexpr(Qexpr(vec![Value::Num(7)])));
    let rest = builtin::tail(
        Value::Qexpr(Qexpr(vec![Value::Num(7), Value::Num(8)])),
        &mut env,
    )
    .unwrap();
    assert_eq!(rest, Value::Qexpr(Qexpr(vec![Value::Num(8)])));
}

#[test]
fn process_returns_typed_values() {
    let mut env = Environment::default();
    let v = process("+ 2 2", &mut env).unwrap();
    assert_eq!(v, Value::Num(4));
    let v = process("list 1 2", &mut env).unwrap();
    assert_eq!(v, Value::Qexpr(Qexpr(vec![Value::Num(1), Value::Num(2)])));
}

#[test]
fn environment_lookup_misses_unbound_names() {
    let env = Environment::default();
    assert!(env.get("nothing").is_none());
    assert!(env.get("head").is_some());
}

#[test]
fn bindings_skip_builtins_and_keep_the_latest_value() {
    let mut env = Environment::default();
    assert!(env.bindings().is_empty());
    let _ = process_str("def {x} 100", &mut env);
    let _ = process_str("def {x} {1 2}", &mut env);
    let _ = process_str("def {y} 7", &mut env);
    let mut pairs = env.bindings();
    pairs.sort();
    assert_eq!(
        pairs,
        vec![
            ("x".to_string(), "{ 1 2 }".to_string()),
            ("y".to_string(), "7".to_string()),
        ]
    );
}

#[test]
fn free_builtins_take_packaged_arguments() {
    let mut env = Environment::default();
    let packed = Value::Sexpr(Sexpr(vec![Value::Num(1), Value::Num(2)]));
    assert_eq!(
        builtin::list(packed, &mut env).unwrap(),
        Value::Qexpr(Qexpr(vec![Value::Num(1), Value::Num(2)]))
    );
    let packed = Value::Sexpr(Sexpr(vec![Value::Num(4), Value::Num(5)]));
    assert_eq!(builtin::add(packed, &mut env).unwrap(), Value::Num(9));
    let packed = Value::Sexpr(Sexpr(vec![Value::Num(4), Value::Num(5)]));
    assert_eq!(builtin::sub(packed, &mut env).unwrap(), Value::Num(-9));
    let packed = Value::Sexpr(Sexpr(vec![Value::Num(4), Value::Num(5)]));
    assert_eq!(builtin::mul(packed, &mut env).unwrap(), Value::Num(20));
    let packed = Value::Sexpr(Sexpr(vec![Value::Num(10), Value::Num(5)]));
    assert_eq!(builtin::div(packed, &mut env).unwrap(), Value::Num(2));
}

#[test]
fn free_def_binds_and_returns_the_eval_builtin() {
    let mut env = Environment::default();
    let packed = Value::Sexpr(Sexpr(vec![
        Value::Qexpr(Qexpr(vec![Value::Sym("z".to_string())])),
        Value::Num(31),
    ]));
    let sentinel = builtin::def(packed, &mut env).unwrap();
    assert_eq!(sentinel, env.get("eval").unwrap());
    assert_eq!(env.get("z").unwrap(), Value::Num(31));
}

#[test]
fn free_eval_reenters_the_evaluator() {
    let mut env = Environment::default();
    let plus = env.get("+").unwrap();
    let packed = Value::Sexpr(Sexpr(vec![Value::Qexpr(Qexpr(vec![
        plus,
        Value::Num(20),
        Value::Num(22),
    ]))]));
    assert_eq!(builtin::eval(packed, &mut env).unwrap(), Value::Num(42));
}

#[test]
fn sexpr_methods_compute_directly() {
    let nums = || vec![Value::Num(3), Value::Num(4)];
    assert_eq!(Sexpr(nums()).add().unwrap(), Value::Num(7));
    assert_eq!(Sexpr(nums()).sub().unwrap(), Value::Num(-7));
    assert_eq!(Sexpr(nums()).mul().unwrap(), Value::Num(12));
    assert_eq!(Sexpr(nums()).div().unwrap(), Value::Num(0));
    let bad = Sexpr(vec![Value::Num(1), Value::Sym("q".to_string())]);
    assert_eq!(
        bad.add().unwrap_err(),
        EvalError::NonNumber(Value::Sym("q".to_string()))
    );
}

#[test]
fn rendering_pads_delimiters_and_spaces() {
    let v = Value::Qexpr(Qexpr(vec![
        Value::Num(-3),
        Value::Sym("abc".to_string()),
        Value::Sexpr(Sexpr(vec![Value::Num(10)])),
    ]));
    assert_eq!(v.render(), "{ -3 abc ( 10 ) }");
}
