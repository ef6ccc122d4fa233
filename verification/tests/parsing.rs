//! Parser tests: sources covering assignment, definitions, precedence,
//! blank lines, loops and print statements, plus the errors the parser
//! reports.

use minipy::parser::{parse, Expected, ParseError};
use minipy::pretty::PrettyPrint;
use minipy::scanner::tokenize;
use minipy::token::TokenType;

fn parse_source(source: &str) -> Result<Vec<minipy::ast::Stmt>, ParseError> {
    let tokens = tokenize(source).expect("lexes");
    parse(tokens)
}

#[test]
fn test_parse_assign() {
    let source = "x = 1\ny = x + 1\n";
    let stmts = parse_source(source).expect("parses");
    assert_eq!(stmts.len(), 2);
}

#[test]
fn test_parse_def() {
    let source = "def fib(x):\n    if x < 2:\n        return x\n    return fib(x - 1) + fib(x - 2)\nfib(6)\n";
    let stmts = parse_source(source).expect("parses");
    assert_eq!(stmts.len(), 2);
    assert!(matches!(stmts[0], minipy::ast::Stmt::Def(_, _, _)));
}

#[test]
fn test_parse_ambiguous() {
    let source = "x = 1 + 2 * 3 - 4\ny = 1 < 2 == 0 < 1\n";
    let stmts = parse_source(source).expect("parses");
    assert_eq!(stmts.len(), 2);
}

#[test]
fn test_parse_empty_new_line() {
    let source = "def f(x):\n\n    return x\n\n\nf(1)\n";
    let stmts = parse_source(source).expect("parses");
    assert_eq!(stmts.len(), 2);
}

#[test]
fn test_parse_while_stmt() {
    let source = "x = 0\nwhile x < 3:\n    x = x + 1\n    if x == 2:\n        break\nx\n";
    let stmts = parse_source(source).expect("parses");
    assert_eq!(stmts.len(), 3);
    assert!(matches!(stmts[1], minipy::ast::Stmt::While(_, _)));
}

#[test]
fn test_parse_print_stmt() {
    let source = "print 1 + 2\n";
    let stmts = parse_source(source).expect("parses");
    assert_eq!(stmts.len(), 1);
    assert!(matches!(stmts[0], minipy::ast::Stmt::Print(_)));
}

#[test]
fn test_parse_else_branch() {
    let source = "if 2 < 1:\n    x = 1\nelse:\n    x = 2\nx\n";
    let stmts = parse_source(source).expect("parses");
    assert_eq!(stmts.len(), 2);
    match &stmts[0] {
        minipy::ast::Stmt::If(_, _, els) => assert!(els.is_some()),
        other => panic!("expected a conditional, got {:?}", other),
    }
}

#[test]
fn test_parse_chained_call() {
    let source = "f(x)(y)\n";
    let stmts = parse_source(source).expect("parses");
    match &stmts[0] {
        minipy::ast::Stmt::Expr(minipy::ast::Expr::Call(callee, args)) => {
            assert_eq!(args.len(), 1);
            assert!(matches!(**callee, minipy::ast::Expr::Call(_, _)));
        },
        other => panic!("expected a chained call, got {:?}", other),
    }
}

#[test]
fn test_parse_error_def_expects_identifier() {
    // A definition whose name is missing fails expecting an identifier,
    // without bringing the process down.
    let source = "def f(:";
    let tokens = tokenize(source).expect("lexes");
    let err = parse(tokens).expect_err("must not parse");
    assert_eq!(err.expected, Expected::Token(TokenType::Identifier));
    assert_eq!(err.found, TokenType::Colon);
}

#[test]
fn test_parse_error_missing_rparen() {
    let source = "x = (1 + 2\n";
    let tokens = tokenize(source).expect("lexes");
    let err = parse(tokens).expect_err("must not parse");
    assert_eq!(err.expected, Expected::Token(TokenType::RParen));
}

#[test]
fn test_parse_error_expression() {
    let source = "x = *\n";
    let tokens = tokenize(source).expect("lexes");
    let err = parse(tokens).expect_err("must not parse");
    assert_eq!(err.expected, Expected::Expression);
    assert_eq!(err.found, TokenType::Mul);
}

#[test]
fn test_parse_int_literal_bounds() {
    let stmts = parse_source("2147483647\n").expect("parses");
    match &stmts[0] {
        minipy::ast::Stmt::Expr(minipy::ast::Expr::IntLiteral(v)) => {
            assert_eq!(*v, 2147483647);
        },
        other => panic!("expected an integer literal, got {:?}", other),
    }
    let tokens = tokenize("2147483648\n").expect("lexes");
    let err = parse(tokens).expect_err("too large to represent");
    assert_eq!(err.expected, Expected::IntLiteral);
    assert_eq!(err.found, TokenType::Int);
}

#[test]
fn test_pretty_print_expr() {
    let expr = minipy::ast::Expr::BinaryOp(
        Box::new(minipy::ast::Expr::IntLiteral(1)),
        Box::new(minipy::ast::Expr::IntLiteral(-23)),
        minipy::token::Token::new(TokenType::Plus, "+".to_string()),
    );
    assert_eq!(expr.pretty_print(0), "(1 + -23)");
}

#[test]
fn test_pretty_print_stmt() {
    let stmts = parse_source("def f(a, b):\n    return a\n").expect("parses");
    assert_eq!(stmts[0].pretty_print(0), "def f(a, b):\n    return a\n\n");
}
