//! Fine-grained tokenizer tests: names, keywords, operators, newlines
//! and spans.

use minipy::tokenizer::{TokenType, Tokenizer};

#[test]
fn test_tokenizer_name() {
    let source = "name def";
    let mut tokenizer = Tokenizer::new(source);
    let token = tokenizer.next().unwrap();
    assert_eq!(token.token_type, TokenType::Name);
    let token = tokenizer.next().unwrap();
    assert_eq!(token.token_type, TokenType::Def);
    let token = tokenizer.next().unwrap();
    assert_eq!(token.token_type, TokenType::EndMarker);
}

#[test]
fn test_tokenizer_operator() {
    let source = "name + - * /";
    let mut tokenizer = Tokenizer::new(source);
    let token = tokenizer.next().unwrap();
    assert_eq!(token.token_type, TokenType::Name);
    let token = tokenizer.next().unwrap();
    assert_eq!(token.token_type, TokenType::Plus);
    let token = tokenizer.next().unwrap();
    assert_eq!(token.token_type, TokenType::Minus);
    let token = tokenizer.next().unwrap();
    assert_eq!(token.token_type, TokenType::Star);
    let token = tokenizer.next().unwrap();
    assert_eq!(token.token_type, TokenType::Slash);
    let token = tokenizer.next().unwrap();
    assert_eq!(token.token_type, TokenType::EndMarker);
}

#[test]
fn test_tokenizer_newline() {
    let source = "name + - * / \r \r \n \r \r 4 + 3";
    let mut tokenizer = Tokenizer::new(source);
    let token = tokenizer.next().unwrap();
    assert_eq!(token.token_type, TokenType::Name);
    let token = tokenizer.next().unwrap();
    assert_eq!(token.token_type, TokenType::Plus);
    let token = tokenizer.next().unwrap();
    assert_eq!(token.token_type, TokenType::Minus);
    let token = tokenizer.next().unwrap();
    assert_eq!(token.token_type, TokenType::Star);
    let token = tokenizer.next().unwrap();
    assert_eq!(token.token_type, TokenType::Slash);
    let token = tokenizer.next().unwrap();
    assert_eq!(token.token_type, TokenType::Newline);
    let token = tokenizer.next().unwrap();
    assert_eq!(token.token_type, TokenType::Number);
    let token = tokenizer.next().unwrap();
    assert_eq!(token.token_type, TokenType::Plus);
    let token = tokenizer.next().unwrap();
    assert_eq!(token.token_type, TokenType::Number);
    let token = tokenizer.next().unwrap();
    assert_eq!(token.token_type, TokenType::EndMarker);
}

#[test]
fn test_tokenizer_longest_operator_first() {
    let source = "a <<= b ** c != d";
    let mut tokenizer = Tokenizer::new(source);
    let kinds = [
        TokenType::Name,
        TokenType::LeftShiftEqual,
        TokenType::Name,
        TokenType::DoubleStar,
        TokenType::Name,
    ];
    for k in kinds {
        assert_eq!(tokenizer.next().unwrap().token_type, k);
    }
    // `!` begins no operator of the table: it is rejected in place.
    let err = tokenizer.next().unwrap_err();
    assert_eq!(err.ch, '!');
}

#[test]
fn test_tokenizer_spans_and_values() {
    let source = "while x0:";
    let mut tokenizer = Tokenizer::new(source);
    let token = tokenizer.next().unwrap();
    assert_eq!(token.token_type, TokenType::While);
    assert_eq!(token.value(), "while");
    assert_eq!(token.start(), 0);
    assert_eq!(token.end(), 5);
    assert_eq!(token.length(), 5);
    assert_eq!(token.line(), 1);
    let token = tokenizer.next().unwrap();
    assert_eq!(token.token_type, TokenType::Name);
    assert_eq!(token.value(), "x0");
    let token = tokenizer.next().unwrap();
    assert_eq!(token.token_type, TokenType::Colon);
    assert_eq!(token.value(), ":");
}
