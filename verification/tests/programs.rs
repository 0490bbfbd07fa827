//! End-to-end programs through scan, parse and interpret, plus unit tests
//! of the value domain, the environment and the number encoding.

use rlox::environment::Environment;
use rlox::float_bits;
use rlox::interpreter::Interpreter;
use rlox::run;
use rlox::value::LiteralValue;

fn run_program(source: &str) -> (Vec<String>, Result<(), rlox::LoxErr>) {
    let mut interpreter = Interpreter::new();
    run(&mut interpreter, source)
}

fn expect_output(source: &str, lines: &[&str]) {
    let (out, res) = run_program(source);
    assert!(res.is_ok(), "program failed: {:?}", res.err().map(|e| e.msg));
    let got: Vec<&str> = out.iter().map(|s| s.as_str()).collect();
    assert_eq!(got, lines.to_vec());
}

#[test]
fn test_precedence() {
    expect_output("print 1 + 2 * 3;", &["7"]);
}

#[test]
fn test_variables_add() {
    expect_output("var a = 1; var b = 2; print a + b;", &["3"]);
}

#[test]
fn test_block_shadowing() {
    expect_output("var x = 1; { var x = 2; print x; } print x;", &["2", "1"]);
}

#[test]
fn test_while_loop() {
    expect_output(
        "var i = 0; while (i < 3) { print i; i = i + 1; }",
        &["0", "1", "2"],
    );
}

#[test]
fn test_if_else() {
    expect_output("if (1 == 1) print \"yes\"; else print \"no\";", &["yes"]);
}

#[test]
fn test_string_concat_and_repeat() {
    expect_output("print \"ab\" + \"cd\";", &["abcd"]);
    expect_output("print \"ab\" * 3;", &["ababab"]);
}

#[test]
fn test_for_loop() {
    expect_output("for (var i = 0; i < 2; i = i + 1) print i;", &["0", "1"]);
}

#[test]
fn test_or_returns_boolean() {
    expect_output("var a = nil; print a or \"fallback\";", &["true"]);
}

#[test]
fn test_empty_program() {
    let (out, res) = run_program("");
    assert!(res.is_ok());
    assert!(out.is_empty());
}

#[test]
fn test_division_by_zero_is_not_an_error() {
    expect_output("print 1 / 0 > 100;", &["true"]);
    expect_output("print 0 / 0 == 0 / 0;", &["false"]);
    expect_output("print -1 / 0 < -100;", &["true"]);
}

#[test]
fn test_repeat_by_negative_count_is_empty() {
    expect_output("print \"ab\" * -2;", &[""]);
}

#[test]
fn test_short_circuit_skips_side_effect() {
    expect_output(
        "var a = -1; var b = 0; var c = a and (b = 1); print b; print c;",
        &["0", "false"],
    );
    expect_output(
        "var a = 1; var b = 0; var c = a or (b = 1); print b; print c;",
        &["0", "true"],
    );
}

#[test]
fn test_negative_number_is_falsy() {
    expect_output("print !(0 - 1);", &["true"]);
    expect_output("var n = 0 - 1; while (n) { print \"never\"; n = 0 - 1; }", &[]);
    expect_output("print 0 - 1 and true;", &["false"]);
}

#[test]
fn test_undefined_variable_is_an_error() {
    let (out, res) = run_program("print missing;");
    assert!(out.is_empty());
    assert_eq!(res.err().unwrap().msg, "Undefined Var missing");
}

#[test]
fn test_assign_before_declare_is_an_error() {
    let (_, res) = run_program("x = 1;");
    assert_eq!(res.err().unwrap().msg, "Variable x has not been declared");
}

#[test]
fn test_type_error_on_mixed_operands() {
    let (_, res) = run_program("print 1 + \"a\";");
    assert_eq!(
        res.err().unwrap().msg,
        "Invalid operands to binary operator"
    );
}

#[test]
fn test_negate_string_is_an_error() {
    let (_, res) = run_program("print -\"a\";");
    assert_eq!(res.err().unwrap().msg, "Unable to negate this expression");
}

#[test]
fn test_assert_passes_and_fails() {
    let (out, res) = run_program("assert 1 == 1; print \"ok\";");
    assert!(res.is_ok());
    assert_eq!(out, vec!["ok"]);
    let (_, res) = run_program("assert 1 == 2;");
    assert_eq!(res.err().unwrap().msg, "Assertion Failed");
}

#[test]
fn test_assert_swallows_evaluation_error() {
    let (out, res) = run_program("assert missing; print \"after\";");
    assert!(res.is_ok());
    assert_eq!(out, vec!["Undefined Var missing", "after"]);
}

#[test]
fn test_repl_state_persists() {
    let mut interpreter = Interpreter::new();
    let (_, res) = run(&mut interpreter, "var a = 40;");
    assert!(res.is_ok());
    let (out, res) = run(&mut interpreter, "print a + 2;");
    assert!(res.is_ok());
    assert_eq!(out, vec!["42"]);
}

#[test]
fn test_environment_define_get_assign() {
    let mut env = Environment::new();
    env.define("x".to_string(), LiteralValue::FValue((1.0f64).to_bits()));
    match env.get("x".to_string()) {
        Ok(LiteralValue::FValue(b)) => assert_eq!(b, (1.0f64).to_bits()),
        _ => panic!("defined name must read back"),
    }
    assert!(env.assign("x", LiteralValue::True));
    assert!(matches!(env.get("x".to_string()), Ok(LiteralValue::True)));
    assert!(!env.assign("absent", LiteralValue::Nil));
    assert!(env.get("absent".to_string()).is_err());
}

#[test]
fn test_assign_writes_innermost_binding_scope() {
    let mut env = Environment::new();
    env.define("x".to_string(), LiteralValue::FValue((1.0f64).to_bits()));
    env.push_scope();
    assert!(env.assign("x", LiteralValue::FValue((2.0f64).to_bits())));
    env.pop_scope();
    match env.get("x".to_string()) {
        Ok(LiteralValue::FValue(b)) => assert_eq!(b, (2.0f64).to_bits()),
        _ => panic!("assignment must write through to the outer scope"),
    }
}

#[test]
fn test_number_arithmetic_matches_hardware() {
    let pairs = [(0.1f64, 0.2f64), (1.5, 2.25), (-7.5, 3.0), (1e308, 1e308)];
    for (x, y) in pairs {
        assert_eq!(
            float_bits::num_add(x.to_bits(), y.to_bits()),
            (x + y).to_bits()
        );
        assert_eq!(
            float_bits::num_sub(x.to_bits(), y.to_bits()),
            (x - y).to_bits()
        );
        assert_eq!(
            float_bits::num_mul(x.to_bits(), y.to_bits()),
            (x * y).to_bits()
        );
        assert_eq!(
            float_bits::num_div(x.to_bits(), y.to_bits()),
            (x / y).to_bits()
        );
        assert_eq!(float_bits::num_lt(x.to_bits(), y.to_bits()), x < y);
        assert_eq!(float_bits::num_le(x.to_bits(), y.to_bits()), x <= y);
        assert_eq!(float_bits::num_eq(x.to_bits(), y.to_bits()), x == y);
    }
    assert!(float_bits::num_eq((0.0f64).to_bits(), (-0.0f64).to_bits()));
    let nan = f64::NAN;
    assert!(!float_bits::num_eq(nan.to_bits(), nan.to_bits()));
    assert!(!float_bits::num_lt(nan.to_bits(), (1.0f64).to_bits()));
    assert_eq!(float_bits::num_negate((1.5f64).to_bits()), (-1.5f64).to_bits());
}

#[test]
fn test_number_parse_and_render() {
    assert_eq!(
        float_bits::num_from_decimal("1.25"),
        Some((1.25f64).to_bits())
    );
    assert_eq!(float_bits::num_from_decimal("007"), Some((7.0f64).to_bits()));
    assert_eq!(float_bits::num_to_decimal((7.0f64).to_bits()), "7");
    assert_eq!(float_bits::num_to_decimal((1.5f64).to_bits()), "1.5");
    assert_eq!(float_bits::num_to_decimal((0.25f64).to_bits()), "0.25");
}

#[test]
fn test_value_stringify_and_truthiness() {
    assert_eq!(LiteralValue::True.to_string(), "true");
    assert_eq!(LiteralValue::False.to_string(), "false");
    assert_eq!(LiteralValue::Nil.to_string(), "nil");
    assert_eq!(
        LiteralValue::FValue((3.0f64).to_bits()).to_string(),
        "3"
    );
    assert_eq!(
        LiteralValue::StringValue("ab".to_string()).to_string(),
        "ab"
    );
    assert!(!LiteralValue::Nil.to_boolean());
    assert!(!LiteralValue::False.to_boolean());
    assert!(LiteralValue::True.to_boolean());
    assert!(LiteralValue::FValue((0.0f64).to_bits()).to_boolean());
    assert!(LiteralValue::FValue((-0.0f64).to_bits()).to_boolean());
    assert!(!LiteralValue::FValue((-1.0f64).to_bits()).to_boolean());
    assert!(!LiteralValue::FValue(f64::NAN.to_bits()).to_boolean());
    assert!(!LiteralValue::StringValue(String::new()).to_boolean());
    assert!(LiteralValue::StringValue("x".to_string()).to_boolean());
}

#[test]
fn test_string_comparisons() {
    expect_output("print \"abc\" < \"abd\";", &["true"]);
    expect_output("print \"b\" > \"a\";", &["true"]);
    expect_output("print \"a\" == \"a\";", &["true"]);
    expect_output("print \"a\" != \"b\";", &["true"]);
    expect_output("print \"ab\" <= \"ab\";", &["true"]);
}
