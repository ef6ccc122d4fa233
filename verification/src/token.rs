//! Lexical tokens: a tagged kind plus the literal text matched.

use vstd::prelude::*;

verus! {

/// The kind of a lexical token: keywords, identifiers, integer literals,
/// operators, delimiters, the synthetic block markers `Indent` / `Dedent`,
/// the logical-line terminator `NewLine`, and the final `EndMarker`.
#[derive(Debug, PartialEq, Eq, Clone, Copy, Structural)]
pub enum TokenType {
    Def,
    If,
    Else,
    While,
    Return,
    Break,
    Print,
    Identifier,
    Int,
    Plus,
    Minus,
    Mul,
    Div,
    Colon,
    Comma,
    Assign,
    LessThan,
    EqualEqual,
    BangEqual,
    Indent,
    Dedent,
    LParen,
    RParen,
    NewLine,
    EndMarker,
}

/// A token: its kind and the text it was matched from.
/// Synthetic tokens (`Indent`, `Dedent`, `EndMarker`) carry empty text.
#[derive(Debug, PartialEq)]
pub struct Token {
    pub token_type: TokenType,
    pub value: String,
}

/// The mathematical value of a token: its kind and its text as a
/// sequence of characters.
pub ghost struct TokenV {
    pub kind: TokenType,
    pub text: Seq<char>,
}

impl View for Token {
    type V = TokenV;

    open spec fn view(&self) -> TokenV {
        TokenV { kind: self.token_type, text: self.value@ }
    }
}

impl DeepView for Token {
    type V = TokenV;

    open spec fn deep_view(&self) -> TokenV {
        self.view()
    }
}

/// A well-formed token stream: non-empty, ending in exactly one
/// `EndMarker`.
pub open spec fn tokens_wf(toks: Seq<TokenV>) -> bool {
    &&& toks.len() >= 1
    &&& toks.last().kind == TokenType::EndMarker
    &&& forall|i: int| 0 <= i < toks.len() - 1 ==> (#[trigger] toks[i].kind) != TokenType::EndMarker
}

impl Token {
    /// Build a token from its kind and text.
    pub fn new(token_type: TokenType, value: String) -> (t: Token)
        ensures
            t@ == (TokenV { kind: token_type, text: value@ }),
    {
        Token { token_type, value }
    }

    /// A copy of this token with the same kind and text.
    pub fn duplicate(&self) -> (t: Token)
        ensures
            t@ == self@,
    {
        Token { token_type: self.token_type, value: self.value.clone() }
    }
}

} // verus!
