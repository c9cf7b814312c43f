use pils::environment::Environment;
use pils::qexpr::Qexpr;
use pils::value::Value;

#[test]
fn head() {
    let qexpr = Qexpr(vec![Value::Num(1), Value::Num(2), Value::Num(3)]);
    let first = qexpr.head().unwrap();
    assert_eq!(first, Value::Qexpr(Qexpr(vec![Value::Num(1)])));
}

#[test]
fn tail() {
    let qexpr = Qexpr(vec![Value::Num(1), Value::Num(2), Value::Num(3)]);
    let rest = qexpr.tail().unwrap();
    assert_eq!(rest, Value::Qexpr(Qexpr(vec![Value::Num(2), Value::Num(3)])));
}

#[test]
fn join() {
    let qexpr = Qexpr(vec![
        Value::Qexpr(Qexpr(vec![Value::Num(1), Value::Num(2), Value::Num(3)])),
        Value::Qexpr(Qexpr(vec![Value::Num(4), Value::Num(5), Value::Num(6)])),
        Value::Qexpr(Qexpr(vec![Value::Num(7), Value::Num(8), Value::Num(9)])),
    ]);
    let expected = Value::Qexpr(Qexpr(vec![
        Value::Num(1),
        Value::Num(2),
        Value::Num(3),
        Value::Num(4),
        Value::Num(5),
        Value::Num(6),
        Value::Num(7),
        Value::Num(8),
        Value::Num(9),
    ]));

    let result = qexpr.join().unwrap();
    assert_eq!(expected, result);
}

#[test]
fn eval() {
    let value = Qexpr(vec![
        Value::Sym("head".to_string()),
        Value::Qexpr(Qexpr(vec![Value::Num(1), Value::Num(2), Value::Num(3), Value::Num(4)])),
    ]);
    let mut env = Environment::default();
    let result = Qexpr::eval(value, &mut env).unwrap();

    let expected = Value::Qexpr(Qexpr(vec![Value::Num(1)]));
    assert_eq!(expected, result);
}
