use std::collections::VecDeque;

use calculator::evaluation::{Action, EvalError, Evaluation};
use calculator::expression::{Expression, ParseError};
use calculator::literal::is_float_literal_str;
use calculator::operator::Operator;

fn tokens(line: &str) -> VecDeque<&str> {
    line.split_whitespace().collect()
}

fn parse(line: &str) -> Result<Expression, ParseError> {
    Expression::try_from(tokens(line))
}

fn apply(op: Operator, l: f64, r: f64) -> f64 {
    match op {
        Operator::Add => l + r,
        Operator::Subtract => l - r,
        Operator::Multiply => l * r,
        Operator::Divide => l / r,
    }
}

fn evaluate(e: &Expression) -> Result<f64, EvalError> {
    let mut machine = Evaluation::new(e);
    let mut stack: Vec<f64> = Vec::new();
    loop {
        let top_is_zero = stack.last().map_or(false, |v| *v == 0.0);
        match machine.next(top_is_zero) {
            Action::Load(s) => stack.push(s.parse::<f64>().unwrap()),
            Action::Apply(op) => {
                let r = stack.pop().unwrap();
                let l = stack.pop().unwrap();
                stack.push(apply(op, l, r));
            }
            Action::Fail(err) => return Err(err),
            Action::Finish => return Ok(stack.pop().unwrap()),
        }
    }
}

fn run(line: &str) -> String {
    match parse(line.trim()) {
        Ok(e) => match evaluate(&e) {
            Ok(v) => format!("Result: {:?}", v),
            Err(_) => "Error: division by zero.".to_string(),
        },
        Err(_) => "Invalid expression".to_string(),
    }
}

#[test]
fn operator_symbols() {
    assert_eq!(Operator::from_str("+"), Ok(Operator::Add));
    assert_eq!(Operator::from_str("-"), Ok(Operator::Subtract));
    assert_eq!(Operator::from_str("*"), Ok(Operator::Multiply));
    assert_eq!(Operator::from_str("/"), Ok(Operator::Divide));
    assert_eq!(Operator::from_str("?"), Err(()));
    assert_eq!(Operator::from_str("++"), Err(()));
    assert_eq!(Operator::from_str(""), Err(()));
}

#[test]
fn float_literals_accepted() {
    for s in [
        "7", "0", "-3", "+2.5", "1.", ".5", "1e5", "1E-3", "2.5e+10", "inf", "-Infinity",
        "NaN", "+nan", "007",
    ] {
        assert!(is_float_literal_str(s), "{}", s);
        assert!(s.parse::<f64>().is_ok(), "{}", s);
    }
}

#[test]
fn float_literals_refused() {
    for s in [
        "", "+", "-", ".", "abc", "1e", "e5", "1.2.3", "1e+", "--1", "infinit", "1_000", "0x10",
        "1e5.0", "?",
    ] {
        assert!(!is_float_literal_str(s), "{}", s);
        assert!(s.parse::<f64>().is_err(), "{}", s);
    }
}

#[test]
fn single_number_evaluates_to_itself() {
    for s in ["7", "0", "-2.5", "1e3", "123.456"] {
        let e = parse(s).unwrap();
        assert!(matches!(&e, Expression::Number(t) if t == s));
        assert_eq!(evaluate(&e), Ok(s.parse::<f64>().unwrap()));
    }
}

#[test]
fn subtraction_groups_to_the_right() {
    assert_eq!(run("2 - 3 - 4"), "Result: 3.0");
}

#[test]
fn right_associative_tree_shape() {
    let e = parse("2 * 3 + 4").unwrap();
    match e {
        Expression::Operation(l, Operator::Multiply, r) => {
            assert!(matches!(*l, Expression::Number(ref s) if s == "2"));
            match *r {
                Expression::Operation(l2, Operator::Add, r2) => {
                    assert!(matches!(*l2, Expression::Number(ref s) if s == "3"));
                    assert!(matches!(*r2, Expression::Number(ref s) if s == "4"));
                }
                _ => panic!("right operand is not an addition"),
            }
        }
        _ => panic!("not a multiplication"),
    }
    assert_eq!(run("2 * 3 + 4"), "Result: 14.0");
}

#[test]
fn division_by_zero_anywhere() {
    assert_eq!(evaluate(&parse("5 / 0").unwrap()), Err(EvalError::DivisionByZero));
    assert_eq!(run("5 / 0 + 1"), "Result: 5.0");
    assert_eq!(evaluate(&parse("5 + 0 / 0").unwrap()), Err(EvalError::DivisionByZero));
    assert_eq!(run("5 / 1 - 1"), "Error: division by zero.");
    assert_eq!(run("0 / 5"), "Result: 0.0");
}

#[test]
fn malformed_input_rejected() {
    assert_eq!(parse("").err(), Some(ParseError::EmptyOperand));
    assert_eq!(parse("2 +").err(), Some(ParseError::EmptyOperand));
    assert_eq!(parse("2 ? 3").err(), Some(ParseError::InvalidOperator));
    assert_eq!(parse("abc").err(), Some(ParseError::InvalidNumber));
    assert_eq!(parse("2 * * 3").err(), Some(ParseError::InvalidNumber));
    assert_eq!(parse("2 3").err(), Some(ParseError::InvalidOperator));
    assert_eq!(run(""), "Invalid expression");
    assert_eq!(run("2 + "), "Invalid expression");
    assert_eq!(run("2 ? 3"), "Invalid expression");
    assert_eq!(run("abc"), "Invalid expression");
}

#[test]
fn repeated_runs_agree() {
    for line in ["3 + 4", "10 / 2 / 5", "8 / 0", "2 * * 3", "1.5 * 2 - 7"] {
        assert_eq!(run(line), run(line));
        assert_eq!(format!("{:?}", parse(line)), format!("{:?}", parse(line)));
    }
}

#[test]
fn end_to_end_scenarios() {
    assert_eq!(run("3 + 4"), "Result: 7.0");
    assert_eq!(run("10 / 2 / 5"), "Result: 25.0");
    assert_eq!(run("8 / 0"), "Error: division by zero.");
    assert_eq!(run("7"), "Result: 7.0");
    assert_eq!(run("2 * * 3"), "Invalid expression");
}

#[test]
fn machine_steps_in_postfix_order() {
    let e = parse("1 - 2 * 3").unwrap();
    let mut m = Evaluation::new(&e);
    let mut seen: Vec<String> = Vec::new();
    loop {
        match m.next(false) {
            Action::Load(s) => seen.push(s),
            Action::Apply(op) => seen.push(format!("{:?}", op)),
            Action::Fail(_) => panic!("no divisor here"),
            Action::Finish => break,
        }
    }
    assert_eq!(seen, vec!["1", "2", "3", "Multiply", "Subtract"]);
}

#[test]
fn failed_machine_stays_failed() {
    let e = parse("4 / 2").unwrap();
    let mut m = Evaluation::new(&e);
    assert!(matches!(m.next(false), Action::Load(_)));
    assert!(matches!(m.next(false), Action::Load(_)));
    assert!(matches!(m.next(true), Action::Fail(EvalError::DivisionByZero)));
    assert!(matches!(m.next(false), Action::Fail(EvalError::DivisionByZero)));
}

#[test]
fn even_token_counts_rejected() {
    for line in ["", "2 +", "2 + 3 -", "1 2", "1 * 2 / 3 +"] {
        assert!(parse(line).is_err(), "{}", line);
    }
    assert!(parse("1 * 2 / 3").is_ok());
}
