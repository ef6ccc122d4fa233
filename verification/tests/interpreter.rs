//! Evaluator tests: whole-pipeline runs covering assignment, function
//! definition and recursion, loops with break, printing, and every
//! runtime error.

use minipy::ast::Expr;
use minipy::environment::Environment;
use minipy::interpreter::{execute, interpret_expr, RuntimeError};
use minipy::parser::parse;
use minipy::scanner::tokenize;
use minipy::token::{Token, TokenType};
use minipy::value::Value;

const FUEL: u64 = 10_000;

fn run(source: &str) -> Result<Value, RuntimeError> {
    let tokens = tokenize(source).expect("lexes");
    let stmts = parse(tokens).expect("parses");
    let mut env = Environment::new();
    execute(&stmts, &mut env, 0, FUEL)
}

fn run_with_env(source: &str) -> (Result<Value, RuntimeError>, Environment) {
    let tokens = tokenize(source).expect("lexes");
    let stmts = parse(tokens).expect("parses");
    let mut env = Environment::new();
    let r = execute(&stmts, &mut env, 0, FUEL);
    (r, env)
}

#[test]
fn interpreter_test_assign() {
    let source = "x = 1\ny = x + 1\ny\n";
    assert_eq!(run(source), Ok(Value::Int(2)));
}

#[test]
fn test_def_and_all() {
    let source = "def add(a, b):\n    return a + b\n\nadd(2, 3)\n";
    assert_eq!(run(source), Ok(Value::Int(5)));
}

#[test]
fn test_fib() {
    let source = "def fib(x):\n    if x < 2:\n        return x\n    return fib(x - 1) + fib(x - 2)\nfib(6)\n";
    assert_eq!(run(source), Ok(Value::Int(8)));
}

#[test]
fn test_if() {
    let source = "x = 0\nwhile x < 3:\n    x = x + 1\nx\n";
    assert_eq!(run(source), Ok(Value::Int(3)));
}

#[test]
fn test_while_break_yields_null() {
    // A loop broken on its first iteration evaluates to Null ...
    let source = "while 1 < 2:\n    break\n";
    assert_eq!(run(source), Ok(Value::Null));
}

#[test]
fn test_statements_after_broken_loop_run() {
    // ... and the statements after the loop still execute.
    let source = "x = 0\nwhile x < 10:\n    break\nx = x + 1\nx\n";
    assert_eq!(run(source), Ok(Value::Int(1)));
}

#[test]
fn test_assign_twice_same_frame() {
    let source = "x = 1\nx = x + 1\nx\n";
    assert_eq!(run(source), Ok(Value::Int(2)));
}

#[test]
fn test_else_branch_taken() {
    // `x` is bound at top level first: an assignment inside the branch's
    // block then overwrites that binding instead of creating a local one.
    let source = "x = 0\nif 2 < 1:\n    x = 1\nelse:\n    x = 2\nx\n";
    assert_eq!(run(source), Ok(Value::Int(2)));
}

#[test]
fn test_print_collects_values() {
    let (r, env) = run_with_env("print 2 + 3\nprint 7\n");
    assert_eq!(r, Ok(Value::Null));
    assert_eq!(env.printed, vec![Value::Int(5), Value::Int(7)]);
}

#[test]
fn test_literal_operator_values() {
    assert_eq!(run("2 + 3\n"), Ok(Value::Int(5)));
    assert_eq!(run("2 - 3\n"), Ok(Value::Int(-1)));
    assert_eq!(run("2 * 3\n"), Ok(Value::Int(6)));
    assert_eq!(run("7 / 2\n"), Ok(Value::Int(3)));
    assert_eq!(run("-7 / 2\n"), Ok(Value::Int(-3)));
    assert_eq!(run("2 < 3\n"), Ok(Value::Bool(true)));
    assert_eq!(run("3 == 3\n"), Ok(Value::Bool(true)));
    assert_eq!(run("3 != 3\n"), Ok(Value::Bool(false)));
}

#[test]
fn test_division_by_zero() {
    assert_eq!(run("1 / 0\n"), Err(RuntimeError::DivisionByZero));
}

#[test]
fn test_undefined_variable() {
    assert_eq!(run("y\n"), Err(RuntimeError::UndefinedVariable));
}

#[test]
fn test_condition_type_mismatch() {
    assert_eq!(run("if 1:\n    x = 1\n"), Err(RuntimeError::TypeMismatch));
}

#[test]
fn test_operand_type_mismatch() {
    assert_eq!(run("(1 < 2) + 1\n"), Err(RuntimeError::TypeMismatch));
}

#[test]
fn test_invalid_assignment_target() {
    assert_eq!(run("1 = 2\n"), Err(RuntimeError::InvalidAssignmentTarget));
}

#[test]
fn test_invalid_callee() {
    assert_eq!(run("x = 1\nx(2)\n"), Err(RuntimeError::InvalidCallee));
}

#[test]
fn test_arity_mismatch() {
    assert_eq!(run("def f(a):\n    return a\nf()\n"), Err(RuntimeError::ArityMismatch));
}

#[test]
fn test_recursion_limit() {
    let tokens = tokenize("def f():\n    return 1\nf()\n").expect("lexes");
    let stmts = parse(tokens).expect("parses");
    let mut env = Environment::new();
    assert_eq!(execute(&stmts, &mut env, 0, 0), Err(RuntimeError::RecursionLimit));
}

#[test]
fn test_interpret_expr_directly() {
    let expr = Expr::BinaryOp(
        Box::new(Expr::IntLiteral(20)),
        Box::new(Expr::IntLiteral(22)),
        Token::new(TokenType::Plus, "+".to_string()),
    );
    let mut env = Environment::new();
    assert_eq!(interpret_expr(&expr, &mut env, 0, FUEL), Ok(Value::Int(42)));
}

#[test]
fn test_caller_frame_visibility() {
    // A call frame's parent is the caller's frame, so a caller-local name
    // is visible inside the callee.
    let source = "def f():\n    return y\ndef g():\n    y = 5\n    return f()\ng()\n";
    assert_eq!(run(source), Ok(Value::Int(5)));
}
