//! Stack-code generator tests: the exact instruction sequences of a
//! binary operation and an assignment.

use minipy::ast::Expr;
use minipy::codegen::{codegen_expr, Instruction};
use minipy::token::{Token, TokenType};

#[test]
fn test_binary_expr() {
    let expr = Expr::BinaryOp(
        Box::new(Expr::IntLiteral(1)),
        Box::new(Expr::IntLiteral(2)),
        Token::new(TokenType::Plus, "+".to_string()),
    );
    let instructions = codegen_expr(&expr);
    assert_eq!(
        instructions,
        vec![
            Instruction::LoadConst(1),
            Instruction::LoadConst(2),
            Instruction::BinaryOp("+".to_string())
        ]
    );
}

#[test]
fn codegen_test_assign() {
    let expr = Expr::Assign(
        Box::new(Expr::Identifier(Token::new(TokenType::Identifier, "a".to_string()))),
        Box::new(Expr::IntLiteral(1)),
    );
    let instructions = codegen_expr(&expr);
    assert_eq!(
        instructions,
        vec![Instruction::LoadConst(1), Instruction::StoreName("a".to_string())]
    );
}

#[test]
fn codegen_nested_operands() {
    let expr = Expr::BinaryOp(
        Box::new(Expr::Identifier(Token::new(TokenType::Identifier, "x".to_string()))),
        Box::new(Expr::BinaryOp(
            Box::new(Expr::IntLiteral(2)),
            Box::new(Expr::IntLiteral(3)),
            Token::new(TokenType::Mul, "*".to_string()),
        )),
        Token::new(TokenType::Minus, "-".to_string()),
    );
    let instructions = codegen_expr(&expr);
    assert_eq!(
        instructions,
        vec![
            Instruction::LoadName("x".to_string()),
            Instruction::LoadConst(2),
            Instruction::LoadConst(3),
            Instruction::BinaryOp("*".to_string()),
            Instruction::BinaryOp("-".to_string())
        ]
    );
}
