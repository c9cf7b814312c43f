use pils::environment::Environment;
use pils::eval_error::EvalError;
use pils::sexpr::Sexpr;
use pils::value::Value;

#[test]
fn sexpr_multiplication() {
    let operands = Sexpr(vec![Value::Num(1), Value::Num(2), Value::Num(4)]);
    let result = operands.op("*").unwrap();
    assert_eq!(result, Value::Num(8));
}

#[test]
fn sexpr_sexpr_multiplication() {
    let mut env = Environment::default();
    let mul = env.get("*").unwrap();

    let operands = Sexpr(vec![mul.clone(), Value::Num(1), Value::Num(2), Value::Num(4)]);
    let num = operands.eval(&mut env).unwrap();
    assert!(matches!(num, Value::Num(8)));
}

#[test]
fn division() {
    let operands = Sexpr(vec![Value::Num(12), Value::Num(1), Value::Num(4)]);
    let result = operands.op("/").unwrap();
    assert_eq!(result, Value::Num(3));
}

#[test]
fn sexpr_division() {
    let mut env = Environment::default();
    let div = env.get("/").unwrap();
    let operands = Sexpr(vec![div.clone(), Value::Num(12), Value::Num(1), Value::Num(4)]);
    assert!(matches!(operands.eval(&mut env).unwrap(), Value::Num(3)));
}

#[test]
fn rejects_to_divide_by_zero() {
    let operands = Sexpr(vec![Value::Num(12), Value::Num(0), Value::Num(4)]);
    let result = operands.op("/").unwrap_err();
    assert_eq!(result, EvalError::DivisionByZero);
}

#[test]
fn sexpr_rejects_to_divide_by_zero() {
    let mut env = Environment::default();
    let div = env.get("/").unwrap();
    let operands = Sexpr(vec![div.clone(), Value::Num(12), Value::Num(0), Value::Num(4)]);
    let result = operands.eval(&mut env).unwrap_err();
    assert_eq!(result.message(), "Division by zero");
}

#[test]
fn unary_minus() {
    let operands = Sexpr(vec![Value::Num(12)]);
    assert_eq!(operands.op("-").unwrap(), Value::Num(-12));
}

#[test]
fn sexpr_unary_minus() {
    let mut env = Environment::default();
    let sub = env.get("-").unwrap();
    let operands = Sexpr(vec![sub.clone(), Value::Num(12)]);
    assert!(matches!(operands.eval(&mut env).unwrap(), Value::Num(-12)));
}
