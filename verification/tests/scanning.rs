//! Lexer tests: token streams, blank lines, indentation structure and
//! the two lexical errors.

use minipy::scanner::{tokenize, LexErrorKind, Scanner};
use minipy::token::TokenType;

fn kinds(source: &str) -> Vec<TokenType> {
    tokenize(source).expect("lexes").into_iter().map(|t| t.token_type).collect()
}

#[test]
fn test_scan_expression() {
    let tokens = tokenize("1 + 2").expect("lexes");
    let expected = [
        (TokenType::Int, "1"),
        (TokenType::Plus, "+"),
        (TokenType::Int, "2"),
        (TokenType::EndMarker, ""),
    ];
    assert_eq!(tokens.len(), expected.len());
    for (tok, (kind, text)) in tokens.iter().zip(expected.iter()) {
        assert_eq!(tok.token_type, *kind);
        assert_eq!(tok.value, *text);
    }
}

#[test]
fn test_scan_keywords_and_operators() {
    assert_eq!(
        kinds("def if else while return break print x 12 , : ( ) < = == != + - * /"),
        vec![
            TokenType::Def,
            TokenType::If,
            TokenType::Else,
            TokenType::While,
            TokenType::Return,
            TokenType::Break,
            TokenType::Print,
            TokenType::Identifier,
            TokenType::Int,
            TokenType::Comma,
            TokenType::Colon,
            TokenType::LParen,
            TokenType::RParen,
            TokenType::LessThan,
            TokenType::Assign,
            TokenType::EqualEqual,
            TokenType::BangEqual,
            TokenType::Plus,
            TokenType::Minus,
            TokenType::Mul,
            TokenType::Div,
            TokenType::EndMarker,
        ]
    );
}

#[test]
fn test_scan_indent_structure() {
    assert_eq!(
        kinds("if x:\n    y\nz\n"),
        vec![
            TokenType::If,
            TokenType::Identifier,
            TokenType::Colon,
            TokenType::NewLine,
            TokenType::Indent,
            TokenType::Identifier,
            TokenType::NewLine,
            TokenType::Dedent,
            TokenType::Identifier,
            TokenType::NewLine,
            TokenType::EndMarker,
        ]
    );
}

#[test]
fn test_blank_line_leaves_indentation_alone() {
    // A line holding only whitespace yields a lone NewLine and does not
    // close the open block.
    assert_eq!(
        kinds("if x:\n    y\n\n    z\n"),
        vec![
            TokenType::If,
            TokenType::Identifier,
            TokenType::Colon,
            TokenType::NewLine,
            TokenType::Indent,
            TokenType::Identifier,
            TokenType::NewLine,
            TokenType::NewLine,
            TokenType::Identifier,
            TokenType::NewLine,
            TokenType::Dedent,
            TokenType::EndMarker,
        ]
    );
}

#[test]
fn test_trailing_dedents_close_every_level() {
    let tokens = tokenize("if x:\n    if y:\n        z").expect("lexes");
    let trailing: Vec<TokenType> =
        tokens.iter().rev().take(3).rev().map(|t| t.token_type).collect();
    assert_eq!(trailing, vec![TokenType::Dedent, TokenType::Dedent, TokenType::EndMarker]);
}

#[test]
fn test_indent_dedent_balance() {
    // Indentation round-trip: consistent sources emit as many Indent as
    // Dedent tokens.
    for source in [
        "x\n",
        "if x:\n    y\nz\n",
        "if a:\n    if b:\n        c\n    d\ne\n",
        "def f(x):\n    return x\nf(1)",
    ] {
        let tokens = tokenize(source).expect("lexes");
        let indents = tokens.iter().filter(|t| t.token_type == TokenType::Indent).count();
        let dedents = tokens.iter().filter(|t| t.token_type == TokenType::Dedent).count();
        assert_eq!(indents, dedents, "unbalanced for {:?}", source);
    }
}

#[test]
fn test_inconsistent_dedent_is_an_error() {
    let err = tokenize("if x:\n        y\n    z\n").expect_err("dedent lands between levels");
    assert_eq!(err.kind, LexErrorKind::InconsistentDedent);
}

#[test]
fn test_unrecognized_character_is_an_error() {
    let err = tokenize("a $ b").expect_err("no such token");
    assert_eq!(err.kind, LexErrorKind::UnrecognizedChar);
    assert_eq!(err.ch, '$');
    assert_eq!(err.position, 2);
}

#[test]
fn test_scanner_helpers() {
    let mut scanner = Scanner::new("  foo_1 bar".to_string());
    assert_eq!(scanner.peek_char(), Some(' '));
    assert_eq!(scanner.skip_whitespace(), 2);
    let name = scanner.take_name();
    assert_eq!(name, "foo_1");
    assert_eq!(scanner.next_char(), Some(' '));
    let rest = scanner.take_while(|c: char| c != 'r');
    assert_eq!(rest, "ba");
}
