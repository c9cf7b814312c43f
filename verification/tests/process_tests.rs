use pils::environment::Environment;
use pils::process_str;

#[test]
fn process_simple_sexpr() {
    let mut env = Environment::default();
    assert_eq!(process_str("* 2 (+ 4 5) (/ 10 2) (-2) (- 1 2 3)", &mut env), "1080");
}

#[test]
fn process_simple_qexpr() {
    let mut env = Environment::default();
    assert_eq!(process_str("{ * 1 2 3 }", &mut env), "{ * 1 2 3 }");
}

#[test]
fn process_join() {
    let mut env = Environment::default();
    assert_eq!(process_str("join { { 1 2 3 } { 4 ( 5 6 ) } }", &mut env), "{ 1 2 3 4 ( 5 6 ) }");
}

#[test]
fn example_11a() {
    let mut env = Environment::default();
    assert_eq!(process_str("+", &mut env), "<function>");
}

#[test]
fn example_11b() {
    let mut env = Environment::default();
    assert_eq!(process_str("eval (head {5 10 11 15})", &mut env), "5");
}

#[test]
fn example_11d() {
    let mut env = Environment::default();
    assert_eq!(process_str("(eval (head {+ - + - * /})) 10 20", &mut env), "30");
}

#[test]
fn example_11e() {
    let mut env = Environment::default();
    assert_eq!(process_str("hello", &mut env), "Error: unbound symbol");
}

#[test]
fn process_eval() {
    let mut env = Environment::default();
    assert_eq!(process_str("eval { tail ( list 1 2 3 4 ) }", &mut env), "{ 2 3 4 }");
}

#[test]
fn process_def() {
    let mut env = Environment::default();
    let _ = process_str("def {x} 100", &mut env);
    let _ = process_str("def {y} 200", &mut env);
    assert_eq!(process_str("+ x y", &mut env), "300".to_string());
    let _ = process_str("def {a b} 5 6", &mut env);
    assert_eq!(process_str("+ a b", &mut env), "11".to_string());
    let _ = process_str("def {arglist} {a b x y}", &mut env);
    let _ = process_str("def arglist 1 2 3 4", &mut env);
    assert_eq!(process_str("list a b x y", &mut env), "{ 1 2 3 4 }".to_string());
}

#[test]
fn displays() {
    let line = "eval { tail ( list 1 2 3 4 ) }";
    let val = pils::parser::parse_line(line).unwrap();
    let result = val.render();
    assert_eq!(format!("( {line} )"), result);
}

#[test]
fn lib_process_simple_sexpr() {
    let mut env = Environment::default();
    assert_eq!(process_str("* 2 (+ 4 5) (/ 10 2) (-2) (- 1 2 3)", &mut env), "1080");
}

#[test]
fn lib_process_simple_qexpr() {
    let mut env = Environment::default();
    assert_eq!(process_str("{ * 1 2 3 }", &mut env), "{ * 1 2 3 }");
}

#[test]
fn lib_process_join() {
    let mut env = Environment::default();
    assert_eq!(process_str("join { { 1 2 3 } { 4 ( 5 6 ) } }", &mut env), "{ 1 2 3 4 ( 5 6 ) }");
}

#[test]
fn lib_example_11a() {
    let mut env = Environment::default();
    assert_eq!(process_str("+", &mut env), "<function>");
}

#[test]
fn lib_example_11b() {
    let mut env = Environment::default();
    assert_eq!(process_str("eval (head {5 10 11 15})", &mut env), "5");
}

#[test]
fn lib_example_11d() {
    let mut env = Environment::default();
    assert_eq!(process_str("(eval (head {+ - + - * /})) 10 20", &mut env), "30");
}

#[test]
fn lib_example_11e() {
    let mut env = Environment::default();
    assert_eq!(process_str("hello", &mut env), "Error: unbound symbol");
}

#[test]
fn lib_process_eval() {
    let mut env = Environment::default();
    assert_eq!(process_str("eval { tail ( list 1 2 3 4 ) }", &mut env), "{ 2 3 4 }");
}

#[test]
fn lib_process_def() {
    let mut env = Environment::default();
    let _ = process_str("def {x} 100", &mut env);
    let _ = process_str("def {y} 200", &mut env);
    assert_eq!(process_str("+ x y", &mut env), "300".to_string());
    let _ = process_str("def {a b} 5 6", &mut env);
    assert_eq!(process_str("+ a b", &mut env), "11".to_string());
    let _ = process_str("def {arglist} {a b x y}", &mut env);
    let _ = process_str("def arglist 1 2 3 4", &mut env);
    assert_eq!(process_str("list a b x y", &mut env), "{ 1 2 3 4 }".to_string());
}

#[test]
fn lib_displays() {
    let line = "eval { tail ( list 1 2 3 4 ) }";
    let val = pils::parser::parse_line(line).unwrap();
    let result = val.render();
    assert_eq!(format!("( {line} )"), result);
}
