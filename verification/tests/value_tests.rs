use pils::environment::Environment;
use pils::qexpr::Qexpr;
use pils::sexpr::Sexpr;
use pils::value::Value;

#[test]
fn tail_qexpr() {
    let sexpr = Value::Sexpr(Sexpr(vec![
        Value::Sym("tail".to_string()),
        Value::Qexpr(Qexpr(vec![
            Value::Sym("tail".to_string()),
            Value::Sym("join".to_string()),
            Value::Sym("head".to_string()),
        ])),
    ]));
    let mut env = Environment::default();
    let result = Value::eval(sexpr, &mut env).unwrap();
    assert_eq!(
        result,
        Value::Qexpr(Qexpr(vec![Value::Sym("join".to_string()), Value::Sym("head".to_string())]))
    );
}

#[test]
fn list_sexpr_to_qexpr() {
    let value = Value::Sexpr(Sexpr(vec![
        Value::Sym("list".to_string()),
        Value::Num(1),
        Value::Num(2),
        Value::Num(3),
    ]));
    let mut env = Environment::default();
    let result = Value::eval(value, &mut env).unwrap();
    assert_eq!(
        result,
        Value::Qexpr(Qexpr(vec![Value::Num(1), Value::Num(2), Value::Num(3)]))
    );
}

#[test]
fn value_tail_qexpr() {
    let sexpr = Value::Sexpr(Sexpr(vec![
        Value::Sym("tail".to_string()),
        Value::Qexpr(Qexpr(vec![
            Value::Sym("tail".to_string()),
            Value::Sym("join".to_string()),
            Value::Sym("head".to_string()),
        ])),
    ]));
    let mut env = Environment::default();
    let result = Value::eval(sexpr, &mut env).unwrap();
    assert_eq!(
        result,
        Value::Qexpr(Qexpr(vec![Value::Sym("join".to_string()), Value::Sym("head".to_string())]))
    );
}

#[test]
fn value_list_sexpr_to_qexpr() {
    let value = Value::Sexpr(Sexpr(vec![
        Value::Sym("list".to_string()),
        Value::Num(1),
        Value::Num(2),
        Value::Num(3),
    ]));
    let mut env = Environment::default();
    let result = Value::eval(value, &mut env).unwrap();
    assert_eq!(
        result,
        Value::Qexpr(Qexpr(vec![Value::Num(1), Value::Num(2), Value::Num(3)]))
    );
}
