//! The recursive-descent parser: from the token stream to statements and
//! expressions, with explicit precedence levels (assignment, equality,
//! comparison, term, factor, unary, call, primary). The first missing
//! token aborts parsing with a `ParseError`; there is no recovery.
//!
//! The whole of parsing is pinned by specification-level parse functions:
//! each executable parse function is proved to return exactly what its
//! specification names, both the parsed tree and the new cursor position.

use vstd::prelude::*;

use crate::ast::{view_expr, view_exprs, view_stmt, view_stmts, Expr, ExprV, Stmt, StmtV};
use crate::token::{tokens_wf, Token, TokenType, TokenV};

verus! {

/// What the parser was looking for when it failed: a specific token kind,
/// the start of an expression, or an integer literal small enough to
/// represent.
#[derive(Debug, PartialEq, Eq, Clone, Copy, Structural)]
pub enum Expected {
    Token(TokenType),
    Expression,
    IntLiteral,
}

/// A parse failure: what was expected, the kind actually found, and the
/// index of the offending token.
#[derive(Debug, PartialEq, Eq, Clone, Copy, Structural)]
pub struct ParseError {
    pub expected: Expected,
    pub found: TokenType,
    pub position: usize,
}

/// The error a specification parser yields on a state no run of the
/// executable parser can reach (a cursor out of range).
pub open spec fn stuck() -> ParseError {
    ParseError { expected: Expected::Expression, found: TokenType::EndMarker, position: 0 }
}

/// The numeric value of a digit string, most significant digit first.
pub open spec fn digits_value(s: Seq<char>) -> int
    decreases s.len(),
{
    if s.len() == 0 {
        0
    } else {
        digits_value(s.drop_last()) * 10 + (s.last() as u32 - 48)
    }
}

/// Whether every character of `s` is an ASCII digit.
pub open spec fn all_digits(s: Seq<char>) -> bool {
    forall|i: int| 0 <= i < s.len() ==> crate::scanner::is_digit_char(#[trigger] s[i])
}

/// The integer an `Int` token's text denotes, if it is a non-empty digit
/// string whose value fits an `i32`.
pub open spec fn spec_parse_int(text: Seq<char>) -> Option<i32> {
    if text.len() > 0 && all_digits(text) && digits_value(text) <= 0x7fff_ffff {
        Some(digits_value(text) as i32)
    } else {
        None
    }
}

/// The cursor after any run of `NewLine` tokens at `pos`.
pub open spec fn spec_skip_newlines(toks: Seq<TokenV>, pos: int) -> int
    decreases toks.len() - pos,
{
    if pos < 0 || pos >= toks.len() || toks[pos].kind != TokenType::NewLine {
        pos
    } else {
        spec_skip_newlines(toks, pos + 1)
    }
}

/// An identifier expression: the token at the cursor, which must be an
/// `Identifier`.
pub open spec fn spec_parse_identifier(toks: Seq<TokenV>, pos: int) -> Result<
    (ExprV, int),
    ParseError,
> {
    if !(0 <= pos < toks.len()) {
        Err(stuck())
    } else if toks[pos].kind == TokenType::Identifier {
        Ok((ExprV::Identifier(toks[pos]), pos + 1))
    } else {
        Err(
            ParseError {
                expected: Expected::Token(TokenType::Identifier),
                found: toks[pos].kind,
                position: pos as usize,
            },
        )
    }
}

/// A primary expression: an integer literal, an identifier, or a
/// parenthesized expression.
pub open spec fn spec_parse_primary(toks: Seq<TokenV>, pos: int) -> Result<
    (ExprV, int),
    ParseError,
>
    decreases toks.len() - pos, 0int,
{
    if !(0 <= pos < toks.len()) {
        Err(stuck())
    } else if toks[pos].kind == TokenType::Int {
        match spec_parse_int(toks[pos].text) {
            Some(v) => Ok((ExprV::IntLiteral(v), pos + 1)),
            None => Err(
                ParseError {
                    expected: Expected::IntLiteral,
                    found: TokenType::Int,
                    position: pos as usize,
                },
            ),
        }
    } else if toks[pos].kind == TokenType::Identifier {
        Ok((ExprV::Identifier(toks[pos]), pos + 1))
    } else if toks[pos].kind == TokenType::LParen {
        match spec_parse_expr(toks, pos + 1) {
            Ok((e, p2)) => if !(pos + 1 < p2 < toks.len()) {
                Err(stuck())
            } else if toks[p2].kind == TokenType::RParen {
                Ok((e, p2 + 1))
            } else {
                Err(
                    ParseError {
                        expected: Expected::Token(TokenType::RParen),
                        found: toks[p2].kind,
                        position: p2 as usize,
                    },
                )
            },
            Err(e) => Err(e),
        }
    } else {
        Err(
            ParseError {
                expected: Expected::Expression,
                found: toks[pos].kind,
                position: pos as usize,
            },
        )
    }
}

/// The arguments of a call, after the opening parenthesis: a
/// comma-separated expression list closed by `)`; the cursor lands past
/// the closing parenthesis.
pub open spec fn spec_parse_args(toks: Seq<TokenV>, pos: int) -> Result<
    (Seq<ExprV>, int),
    ParseError,
>
    decreases toks.len() - pos, 14int,
{
    if !(0 <= pos < toks.len()) {
        Err(stuck())
    } else if toks[pos].kind == TokenType::RParen {
        Ok((Seq::empty(), pos + 1))
    } else {
        match spec_parse_expr(toks, pos) {
            Ok((a, p2)) => if !(pos < p2 < toks.len()) {
                Err(stuck())
            } else if toks[p2].kind == TokenType::Comma {
                match spec_parse_args(toks, p2 + 1) {
                    Ok((rest, p3)) => Ok((seq![a] + rest, p3)),
                    Err(e) => Err(e),
                }
            } else if toks[p2].kind == TokenType::RParen {
                Ok((seq![a], p2 + 1))
            } else {
                Err(
                    ParseError {
                        expected: Expected::Token(TokenType::Comma),
                        found: toks[p2].kind,
                        position: p2 as usize,
                    },
                )
            },
            Err(e) => Err(e),
        }
    }
}

/// Chained call suffixes: each `(` begins an argument list applied to the
/// expression built so far, so `f(x)(y)` parses as nested calls.
pub open spec fn spec_call_rest(toks: Seq<TokenV>, pos: int, acc: ExprV) -> Result<
    (ExprV, int),
    ParseError,
>
    decreases toks.len() - pos, 1int,
{
    if !(0 <= pos < toks.len()) {
        Err(stuck())
    } else if toks[pos].kind != TokenType::LParen {
        Ok((acc, pos))
    } else {
        match spec_parse_args(toks, pos + 1) {
            Ok((args, p2)) => if !(pos < p2 && p2 <= toks.len()) {
                Err(stuck())
            } else {
                spec_call_rest(toks, p2, ExprV::Call(Box::new(acc), args))
            },
            Err(e) => Err(e),
        }
    }
}

/// A call expression: a primary followed by any number of argument lists.
pub open spec fn spec_parse_call(toks: Seq<TokenV>, pos: int) -> Result<(ExprV, int), ParseError>
    decreases toks.len() - pos, 2int,
{
    match spec_parse_primary(toks, pos) {
        Ok((e, p2)) => if !(pos < p2 && p2 <= toks.len()) {
            Err(stuck())
        } else {
            spec_call_rest(toks, p2, e)
        },
        Err(e) => Err(e),
    }
}

/// A unary expression: `-` applied to a unary expression desugars to
/// `0 - operand`; otherwise a call expression.
pub open spec fn spec_parse_unary(toks: Seq<TokenV>, pos: int) -> Result<(ExprV, int), ParseError>
    decreases toks.len() - pos, 3int,
{
    if !(0 <= pos < toks.len()) {
        Err(stuck())
    } else if toks[pos].kind == TokenType::Minus {
        match spec_parse_unary(toks, pos + 1) {
            Ok((e, p2)) => Ok(
                (ExprV::BinaryOp(Box::new(ExprV::IntLiteral(0)), Box::new(e), toks[pos]), p2),
            ),
            Err(e) => Err(e),
        }
    } else {
        spec_parse_call(toks, pos)
    }
}

/// Left-associative `*` / `/` suffixes.
pub open spec fn spec_factor_rest(toks: Seq<TokenV>, pos: int, acc: ExprV) -> Result<
    (ExprV, int),
    ParseError,
>
    decreases toks.len() - pos, 4int,
{
    if !(0 <= pos < toks.len()) {
        Err(stuck())
    } else if toks[pos].kind != TokenType::Mul && toks[pos].kind != TokenType::Div {
        Ok((acc, pos))
    } else {
        match spec_parse_unary(toks, pos + 1) {
            Ok((r, p2)) => if !(pos < p2 && p2 <= toks.len()) {
                Err(stuck())
            } else {
                spec_factor_rest(toks, p2, ExprV::BinaryOp(Box::new(acc), Box::new(r), toks[pos]))
            },
            Err(e) => Err(e),
        }
    }
}

/// A factor: unary expressions joined by `*` / `/`, left-associative.
pub open spec fn spec_parse_factor(toks: Seq<TokenV>, pos: int) -> Result<(ExprV, int), ParseError>
    decreases toks.len() - pos, 5int,
{
    match spec_parse_unary(toks, pos) {
        Ok((e, p2)) => if !(pos <= p2 && p2 <= toks.len()) {
            Err(stuck())
        } else {
            spec_factor_rest(toks, p2, e)
        },
        Err(e) => Err(e),
    }
}

/// Left-associative `+` / `-` suffixes.
pub open spec fn spec_term_rest(toks: Seq<TokenV>, pos: int, acc: ExprV) -> Result<
    (ExprV, int),
    ParseError,
>
    decreases toks.len() - pos, 6int,
{
    if !(0 <= pos < toks.len()) {
        Err(stuck())
    } else if toks[pos].kind != TokenType::Plus && toks[pos].kind != TokenType::Minus {
        Ok((acc, pos))
    } else {
        match spec_parse_factor(toks, pos + 1) {
            Ok((r, p2)) => if !(pos < p2 && p2 <= toks.len()) {
                Err(stuck())
            } else {
                spec_term_rest(toks, p2, ExprV::BinaryOp(Box::new(acc), Box::new(r), toks[pos]))
            },
            Err(e) => Err(e),
        }
    }
}

/// A term: factors joined by `+` / `-`, left-associative.
pub open spec fn spec_parse_term(toks: Seq<TokenV>, pos: int) -> Result<(ExprV, int), ParseError>
    decreases toks.len() - pos, 7int,
{
    match spec_parse_factor(toks, pos) {
        Ok((e, p2)) => if !(pos <= p2 && p2 <= toks.len()) {
            Err(stuck())
        } else {
            spec_term_rest(toks, p2, e)
        },
        Err(e) => Err(e),
    }
}

/// Left-associative `<` suffixes.
pub open spec fn spec_cmp_rest(toks: Seq<TokenV>, pos: int, acc: ExprV) -> Result<
    (ExprV, int),
    ParseError,
>
    decreases toks.len() - pos, 8int,
{
    if !(0 <= pos < toks.len()) {
        Err(stuck())
    } else if toks[pos].kind != TokenType::LessThan {
        Ok((acc, pos))
    } else {
        match spec_parse_term(toks, pos + 1) {
            Ok((r, p2)) => if !(pos < p2 && p2 <= toks.len()) {
                Err(stuck())
            } else {
                spec_cmp_rest(toks, p2, ExprV::BinaryOp(Box::new(acc), Box::new(r), toks[pos]))
            },
            Err(e) => Err(e),
        }
    }
}

/// A comparison: terms joined by `<`, left-associative.
pub open spec fn spec_parse_comparison(toks: Seq<TokenV>, pos: int) -> Result<
    (ExprV, int),
    ParseError,
>
    decreases toks.len() - pos, 9int,
{
    match spec_parse_term(toks, pos) {
        Ok((e, p2)) => if !(pos <= p2 && p2 <= toks.len()) {
            Err(stuck())
        } else {
            spec_cmp_rest(toks, p2, e)
        },
        Err(e) => Err(e),
    }
}

/// Left-associative `==` / `!=` suffixes.
pub open spec fn spec_eq_rest(toks: Seq<TokenV>, pos: int, acc: ExprV) -> Result<
    (ExprV, int),
    ParseError,
>
    decreases toks.len() - pos, 10int,
{
    if !(0 <= pos < toks.len()) {
        Err(stuck())
    } else if toks[pos].kind != TokenType::EqualEqual && toks[pos].kind != TokenType::BangEqual {
        Ok((acc, pos))
    } else {
        match spec_parse_comparison(toks, pos + 1) {
            Ok((r, p2)) => if !(pos < p2 && p2 <= toks.len()) {
                Err(stuck())
            } else {
                spec_eq_rest(toks, p2, ExprV::BinaryOp(Box::new(acc), Box::new(r), toks[pos]))
            },
            Err(e) => Err(e),
        }
    }
}

/// An equality: comparisons joined by `==` / `!=`, left-associative.
#[verifier::opaque]
pub open spec fn spec_parse_equality(toks: Seq<TokenV>, pos: int) -> Result<
    (ExprV, int),
    ParseError,
>
    decreases toks.len() - pos, 11int,
{
    match spec_parse_comparison(toks, pos) {
        Ok((e, p2)) => if !(pos <= p2 && p2 <= toks.len()) {
            Err(stuck())
        } else {
            spec_eq_rest(toks, p2, e)
        },
        Err(e) => Err(e),
    }
}

/// An assignment: an equality optionally followed by `=` and a full
/// expression (right-associative). The target is only checked to be an
/// identifier at evaluation time, so `1 = 2` parses.
pub open spec fn spec_parse_assignment(toks: Seq<TokenV>, pos: int) -> Result<
    (ExprV, int),
    ParseError,
>
    decreases toks.len() - pos, 12int,
{
    match spec_parse_equality(toks, pos) {
        Ok((name, p2)) => if !(pos < p2 < toks.len()) {
            Err(stuck())
        } else if toks[p2].kind == TokenType::Assign {
            match spec_parse_expr(toks, p2 + 1) {
                Ok((v, p3)) => Ok((ExprV::Assign(Box::new(name), Box::new(v)), p3)),
                Err(e) => Err(e),
            }
        } else {
            Ok((name, p2))
        },
        Err(e) => Err(e),
    }
}

/// A full expression: the lowest precedence level, assignment.
pub open spec fn spec_parse_expr(toks: Seq<TokenV>, pos: int) -> Result<(ExprV, int), ParseError>
    decreases toks.len() - pos, 13int,
{
    spec_parse_assignment(toks, pos)
}

/// The parameter list of a function definition, after the opening
/// parenthesis: comma-separated identifiers closed by `)`.
pub open spec fn spec_param_items(toks: Seq<TokenV>, pos: int) -> Result<
    (Seq<ExprV>, int),
    ParseError,
>
    decreases toks.len() - pos, 14int,
{
    if !(0 <= pos < toks.len()) {
        Err(stuck())
    } else if toks[pos].kind == TokenType::RParen {
        Ok((Seq::empty(), pos + 1))
    } else {
        match spec_parse_identifier(toks, pos) {
            Ok((param, p2)) => if !(pos < p2 < toks.len()) {
                Err(stuck())
            } else if toks[p2].kind == TokenType::Comma {
                match spec_param_items(toks, p2 + 1) {
                    Ok((rest, p3)) => Ok((seq![param] + rest, p3)),
                    Err(e) => Err(e),
                }
            } else if toks[p2].kind == TokenType::RParen {
                Ok((seq![param], p2 + 1))
            } else {
                Err(
                    ParseError {
                        expected: Expected::Token(TokenType::Comma),
                        found: toks[p2].kind,
                        position: p2 as usize,
                    },
                )
            },
            Err(e) => Err(e),
        }
    }
}

/// A block: `Indent`, then statements (each followed by its newlines)
/// until the matching `Dedent`, which is consumed.
pub open spec fn spec_parse_block(toks: Seq<TokenV>, pos: int) -> Result<(StmtV, int), ParseError>
    decreases toks.len() - pos, 16int,
{
    if !(0 <= pos < toks.len()) {
        Err(stuck())
    } else if toks[pos].kind != TokenType::Indent {
        Err(
            ParseError {
                expected: Expected::Token(TokenType::Indent),
                found: toks[pos].kind,
                position: pos as usize,
            },
        )
    } else {
        match spec_block_items(toks, pos + 1) {
            Ok((stmts, p2)) => Ok((StmtV::Block(stmts), p2)),
            Err(e) => Err(e),
        }
    }
}

/// The statements of a block, up to and past the closing `Dedent`.
pub open spec fn spec_block_items(toks: Seq<TokenV>, pos: int) -> Result<
    (Seq<StmtV>, int),
    ParseError,
>
    decreases toks.len() - pos, 18int,
{
    if !(0 <= pos < toks.len()) {
        Err(stuck())
    } else if toks[pos].kind == TokenType::Dedent {
        Ok((Seq::empty(), pos + 1))
    } else {
        match spec_parse_stmt(toks, pos) {
            Ok((s, p2)) => {
                let p3 = spec_skip_newlines(toks, p2);
                if !(pos < p3 < toks.len()) {
                    Err(stuck())
                } else {
                    match spec_block_items(toks, p3) {
                        Ok((rest, p4)) => Ok((seq![s] + rest, p4)),
                        Err(e) => Err(e),
                    }
                }
            },
            Err(e) => Err(e),
        }
    }
}

/// A function definition: `def` name `(` parameters `)` `:` newline block.
pub open spec fn spec_parse_def(toks: Seq<TokenV>, pos: int) -> Result<(StmtV, int), ParseError>
    decreases toks.len() - pos, 16int,
{
    if !(0 <= pos + 1 < toks.len()) {
        Err(stuck())
    } else {
        match spec_parse_identifier(toks, pos + 1) {
            Ok((name, p2)) => if !(pos < p2 < toks.len()) {
                Err(stuck())
            } else if toks[p2].kind != TokenType::LParen {
                Err(
                    ParseError {
                        expected: Expected::Token(TokenType::LParen),
                        found: toks[p2].kind,
                        position: p2 as usize,
                    },
                )
            } else {
                match spec_param_items(toks, p2 + 1) {
                    Ok((params, p3)) => if !(pos < p3 < toks.len()) {
                        Err(stuck())
                    } else if toks[p3].kind != TokenType::Colon {
                        Err(
                            ParseError {
                                expected: Expected::Token(TokenType::Colon),
                                found: toks[p3].kind,
                                position: p3 as usize,
                            },
                        )
                    } else {
                        let p4 = spec_skip_newlines(toks, p3 + 1);
                        if !(pos < p4 && p4 <= toks.len()) {
                            Err(stuck())
                        } else {
                            match spec_parse_block(toks, p4) {
                                Ok((body, p5)) => Ok(
                                    (StmtV::Def(name, params, Box::new(body)), p5),
                                ),
                                Err(e) => Err(e),
                            }
                        }
                    },
                    Err(e) => Err(e),
                }
            },
            Err(e) => Err(e),
        }
    }
}

/// A conditional: `if` expr `:` newline block, optionally followed by
/// `else` `:` newline block.
pub open spec fn spec_parse_if(toks: Seq<TokenV>, pos: int) -> Result<(StmtV, int), ParseError>
    decreases toks.len() - pos, 16int,
{
    if !(0 <= pos && pos + 1 <= toks.len()) {
        Err(stuck())
    } else {
        match spec_parse_expr(toks, pos + 1) {
        Ok((cond, p2)) => if !(pos < p2 < toks.len()) {
            Err(stuck())
        } else if toks[p2].kind != TokenType::Colon {
            Err(
                ParseError {
                    expected: Expected::Token(TokenType::Colon),
                    found: toks[p2].kind,
                    position: p2 as usize,
                },
            )
        } else {
            let p3 = spec_skip_newlines(toks, p2 + 1);
            if !(pos < p3 && p3 <= toks.len()) {
                Err(stuck())
            } else {
                match spec_parse_block(toks, p3) {
                    Ok((body, p4)) => if !(pos < p4 < toks.len()) {
                        Err(stuck())
                    } else if toks[p4].kind == TokenType::Else {
                        if !(p4 + 1 < toks.len()) {
                            Err(stuck())
                        } else if toks[p4 + 1].kind != TokenType::Colon {
                            Err(
                                ParseError {
                                    expected: Expected::Token(TokenType::Colon),
                                    found: toks[p4 + 1].kind,
                                    position: (p4 + 1) as usize,
                                },
                            )
                        } else {
                            let p5 = spec_skip_newlines(toks, p4 + 2);
                            if !(pos < p5 && p5 <= toks.len()) {
                                Err(stuck())
                            } else {
                                match spec_parse_block(toks, p5) {
                                    Ok((els, p6)) => Ok(
                                        (
                                            StmtV::If(
                                                cond,
                                                Box::new(body),
                                                Some(Box::new(els)),
                                            ),
                                            p6,
                                        ),
                                    ),
                                    Err(e) => Err(e),
                                }
                            }
                        }
                    } else {
                        Ok((StmtV::If(cond, Box::new(body), None), p4))
                    },
                    Err(e) => Err(e),
                }
            }
        },
        Err(e) => Err(e),
    }
    }
}

/// A loop: `while` expr `:` newline block.
pub open spec fn spec_parse_while(toks: Seq<TokenV>, pos: int) -> Result<(StmtV, int), ParseError>
    decreases toks.len() - pos, 16int,
{
    if !(0 <= pos && pos + 1 <= toks.len()) {
        Err(stuck())
    } else {
        match spec_parse_expr(toks, pos + 1) {
        Ok((cond, p2)) => if !(pos < p2 < toks.len()) {
            Err(stuck())
        } else if toks[p2].kind != TokenType::Colon {
            Err(
                ParseError {
                    expected: Expected::Token(TokenType::Colon),
                    found: toks[p2].kind,
                    position: p2 as usize,
                },
            )
        } else {
            let p3 = spec_skip_newlines(toks, p2 + 1);
            if !(pos < p3 && p3 <= toks.len()) {
                Err(stuck())
            } else {
                match spec_parse_block(toks, p3) {
                    Ok((body, p4)) => Ok((StmtV::While(cond, Box::new(body)), p4)),
                    Err(e) => Err(e),
                }
            }
        },
        Err(e) => Err(e),
    }
    }
}

/// A break statement: the `break` keyword alone.
pub open spec fn spec_parse_break(toks: Seq<TokenV>, pos: int) -> Result<(StmtV, int), ParseError> {
    Ok((StmtV::Break, pos + 1))
}

/// A return statement: `return` followed by an expression.
pub open spec fn spec_parse_return(toks: Seq<TokenV>, pos: int) -> Result<(StmtV, int), ParseError>
    decreases toks.len() - pos, 16int,
{
    if !(0 <= pos && pos + 1 <= toks.len()) {
        Err(stuck())
    } else {
        match spec_parse_expr(toks, pos + 1) {
        Ok((e, p2)) => Ok((StmtV::Return(e), p2)),
        Err(e) => Err(e),
    }
    }
}

/// A print statement: `print` followed by an expression.
pub open spec fn spec_parse_print(toks: Seq<TokenV>, pos: int) -> Result<(StmtV, int), ParseError>
    decreases toks.len() - pos, 16int,
{
    if !(0 <= pos && pos + 1 <= toks.len()) {
        Err(stuck())
    } else {
        match spec_parse_expr(toks, pos + 1) {
        Ok((e, p2)) => Ok((StmtV::Print(e), p2)),
        Err(e) => Err(e),
    }
    }
}

/// An expression statement: an expression terminated by its `NewLine`
/// (consumed), or standing last before the `EndMarker` (not consumed).
pub open spec fn spec_parse_expr_stmt(toks: Seq<TokenV>, pos: int) -> Result<
    (StmtV, int),
    ParseError,
>
    decreases toks.len() - pos, 15int,
{
    match spec_parse_expr(toks, pos) {
        Ok((e, p2)) => if !(pos < p2 < toks.len()) {
            Err(stuck())
        } else if toks[p2].kind == TokenType::NewLine {
            Ok((StmtV::Expr(e), p2 + 1))
        } else if toks[p2].kind == TokenType::EndMarker {
            Ok((StmtV::Expr(e), p2))
        } else {
            Err(
                ParseError {
                    expected: Expected::Token(TokenType::NewLine),
                    found: toks[p2].kind,
                    position: p2 as usize,
                },
            )
        },
        Err(e) => Err(e),
    }
}

/// One statement, dispatched on the keyword at the cursor.
pub open spec fn spec_parse_stmt(toks: Seq<TokenV>, pos: int) -> Result<(StmtV, int), ParseError>
    decreases toks.len() - pos, 17int,
{
    if !(0 <= pos < toks.len()) {
        Err(stuck())
    } else {
        match toks[pos].kind {
            TokenType::Def => spec_parse_def(toks, pos),
            TokenType::If => spec_parse_if(toks, pos),
            TokenType::Return => spec_parse_return(toks, pos),
            TokenType::While => spec_parse_while(toks, pos),
            TokenType::Break => spec_parse_break(toks, pos),
            TokenType::Print => spec_parse_print(toks, pos),
            _ => spec_parse_expr_stmt(toks, pos),
        }
    }
}

/// The statements of a whole program: newline-separated statements up to
/// the `EndMarker`.
pub open spec fn spec_prog_items(toks: Seq<TokenV>, pos: int) -> Result<
    (Seq<StmtV>, int),
    ParseError,
>
    decreases toks.len() - pos, 19int,
{
    let p1 = spec_skip_newlines(toks, pos);
    if !(0 <= pos <= p1 < toks.len()) {
        Err(stuck())
    } else if toks[p1].kind == TokenType::EndMarker {
        Ok((Seq::empty(), p1))
    } else {
        match spec_parse_stmt(toks, p1) {
            Ok((s, p2)) => if !(p1 < p2 && p2 <= toks.len()) {
                Err(stuck())
            } else {
                match spec_prog_items(toks, p2) {
                    Ok((rest, p3)) => Ok((seq![s] + rest, p3)),
                    Err(e) => Err(e),
                }
            },
            Err(e) => Err(e),
        }
    }
}

/// The abstract syntax tree of a whole token stream.
pub open spec fn spec_parse_program(toks: Seq<TokenV>) -> Result<Seq<StmtV>, ParseError> {
    match spec_prog_items(toks, 0) {
        Ok((stmts, _)) => Ok(stmts),
        Err(e) => Err(e),
    }
}

/// A digit string's value is never negative.
proof fn lemma_digits_value_nonneg(s: Seq<char>)
    requires
        all_digits(s),
    ensures
        digits_value(s) >= 0,
    decreases s.len(),
{
    if s.len() > 0 {
        assert forall|i: int| 0 <= i < s.drop_last().len() implies crate::scanner::is_digit_char(
            #[trigger] s.drop_last()[i],
        ) by {
            assert(s.drop_last()[i] == s[i]);
        }
        lemma_digits_value_nonneg(s.drop_last());
        assert(crate::scanner::is_digit_char(s[s.len() - 1]));
    }
}

/// A digit string's value only grows as more digits are appended.
proof fn lemma_digits_value_prefix(s: Seq<char>, i: int)
    requires
        all_digits(s),
        0 <= i <= s.len(),
    ensures
        digits_value(s.take(i)) <= digits_value(s),
    decreases s.len() - i,
{
    if i < s.len() {
        assert forall|j: int| 0 <= j < s.take(i).len() implies crate::scanner::is_digit_char(
            #[trigger] s.take(i)[j],
        ) by {
            assert(s.take(i)[j] == s[j]);
        }
        lemma_digits_value_nonneg(s.take(i));
        assert(s.take(i + 1).drop_last() =~= s.take(i));
        assert(crate::scanner::is_digit_char(s[i]));
        assert(digits_value(s.take(i + 1)) == digits_value(s.take(i)) * 10 + (s[i] as u32 - 48));
        lemma_digits_value_prefix(s, i + 1);
        assert(s.take(s.len() as int) =~= s);
    } else {
        assert(s.take(i) =~= s);
    }
}

/// Read an `Int` token's text as an `i32`, or nothing if the text is not
/// a digit string whose value fits.
fn parse_i32(text: &String) -> (r: Option<i32>)
    ensures
        r == spec_parse_int(text@),
{
    let n = text.as_str().unicode_len();
    if n == 0 {
        return None;
    }
    let mut acc: u64 = 0;
    let mut i: usize = 0;
    #[verifier::loop_isolation(false)]
    loop
        invariant
            i <= n,
            n == text@.len(),
            forall|j: int| 0 <= j < i ==> crate::scanner::is_digit_char(#[trigger] text@[j]),
            acc == digits_value(text@.take(i as int)),
            acc <= 0x7fff_ffff,
        decreases n - i,
    {
        if i >= n {
            proof {
                assert(text@.take(n as int) =~= text@);
            }
            return Some(acc as i32);
        }
        let c = text.as_str().get_char(i);
        if !crate::scanner::is_digit(c) {
            return None;
        }
        let d = (c as u32) - 48;
        let acc2 = acc * 10 + (d as u64);
        proof {
            assert(text@.take(i as int + 1).drop_last() =~= text@.take(i as int));
        }
        if acc2 > 0x7fff_ffff {
            proof {
                if all_digits(text@) {
                    lemma_digits_value_prefix(text@, i as int + 1);
                }
            }
            return None;
        }
        acc = acc2;
        i = i + 1;
    }
}

/// An identifier expression: the token at the cursor must be an
/// `Identifier`; any other kind is a parse error.
pub fn parse_identifier(tokens: &Vec<Token>, pos: usize) -> (r: Result<(Expr, usize), ParseError>)
    requires
        tokens_wf(tokens.deep_view()),
        pos < tokens@.len(),
    ensures
        match r {
            Ok((e, next)) => {
                &&& spec_parse_identifier(tokens.deep_view(), pos as int) == Ok::<
                    (ExprV, int),
                    ParseError,
                >((view_expr(e), next as int))
                &&& pos < next < tokens@.len()
            },
            Err(pe) => spec_parse_identifier(tokens.deep_view(), pos as int) == Err::<
                (ExprV, int),
                ParseError,
            >(pe),
        },
{
    let ghost toks = tokens.deep_view();
    let n = tokens.len();
    let k = tokens[pos].token_type;
    if k == TokenType::Identifier {
        proof {
            assert(toks.len() == tokens@.len());
            assert(toks[pos as int] == tokens@[pos as int]@);
            assert(toks[pos as int].kind != TokenType::EndMarker);
            assert(toks.last().kind == TokenType::EndMarker);
        }
        Ok((Expr::Identifier(tokens[pos].duplicate()), pos + 1))
    } else {
        Err(ParseError { expected: Expected::Token(TokenType::Identifier), found: k, position: pos })
    }
}

/// A primary expression: an integer literal, an identifier, or a
/// parenthesized expression; any other token is a parse error.
#[verifier::rlimit(100)]
pub fn parse_primary(tokens: &Vec<Token>, pos: usize) -> (r: Result<(Expr, usize), ParseError>)
    requires
        tokens_wf(tokens.deep_view()),
        pos < tokens@.len(),
    ensures
        match r {
            Ok((e, next)) => {
                &&& spec_parse_primary(tokens.deep_view(), pos as int) == Ok::<
                    (ExprV, int),
                    ParseError,
                >((view_expr(e), next as int))
                &&& pos < next < tokens@.len()
            },
            Err(pe) => spec_parse_primary(tokens.deep_view(), pos as int) == Err::<
                (ExprV, int),
                ParseError,
            >(pe),
        },
    decreases tokens@.len() - pos, 0int,
{
    let ghost toks = tokens.deep_view();
    let n = tokens.len();
    let k = tokens[pos].token_type;
    if k == TokenType::Int {
        match parse_i32(&tokens[pos].value) {
            Some(v) => {
                proof {
                    assert(toks[pos as int].kind != TokenType::EndMarker);
                }
                Ok((Expr::IntLiteral(v), pos + 1))
            },
            None => Err(
                ParseError { expected: Expected::IntLiteral, found: TokenType::Int, position: pos },
            ),
        }
    } else if k == TokenType::Identifier {
        proof {
            assert(toks[pos as int].kind != TokenType::EndMarker);
        }
        Ok((Expr::Identifier(tokens[pos].duplicate()), pos + 1))
    } else if k == TokenType::LParen {
        proof {
            assert(toks[pos as int].kind != TokenType::EndMarker);
        }
        match parse_expr(tokens, pos + 1) {
            Ok((e, p2)) => {
                let k2 = tokens[p2].token_type;
                if k2 == TokenType::RParen {
                    proof {
                        assert(toks[p2 as int].kind != TokenType::EndMarker);
                    }
                    Ok((e, p2 + 1))
                } else {
                    Err(
                        ParseError {
                            expected: Expected::Token(TokenType::RParen),
                            found: k2,
                            position: p2,
                        },
                    )
                }
            },
            Err(e) => Err(e),
        }
    } else {
        Err(ParseError { expected: Expected::Expression, found: k, position: pos })
    }
}

/// The arguments of a call, after the opening parenthesis.
#[verifier::rlimit(100)]
fn parse_call_args(tokens: &Vec<Token>, pos: usize) -> (r: Result<
    (Vec<Expr>, usize),
    ParseError,
>)
    requires
        tokens_wf(tokens.deep_view()),
        pos < tokens@.len(),
    ensures
        match r {
            Ok((args, next)) => {
                &&& spec_parse_args(tokens.deep_view(), pos as int) == Ok::<
                    (Seq<ExprV>, int),
                    ParseError,
                >((view_exprs(args@), next as int))
                &&& pos < next < tokens@.len()
            },
            Err(pe) => spec_parse_args(tokens.deep_view(), pos as int) == Err::<
                (Seq<ExprV>, int),
                ParseError,
            >(pe),
        },
    decreases tokens@.len() - pos, 14int,
{
    let ghost toks = tokens.deep_view();
    let n = tokens.len();
    let mut args: Vec<Expr> = Vec::new();
    let mut q = pos;
    #[verifier::loop_isolation(false)]
    loop
        invariant
            pos <= q < tokens@.len(),
            match spec_parse_args(toks, q as int) {
                Ok((more, n)) => spec_parse_args(toks, pos as int) == Ok::<
                    (Seq<ExprV>, int),
                    ParseError,
                >((view_exprs(args@) + more, n)),
                Err(er) => spec_parse_args(toks, pos as int) == Err::<
                    (Seq<ExprV>, int),
                    ParseError,
                >(er),
            },
        decreases tokens@.len() - q,
    {
        let ghost args0 = args@;
        let k = tokens[q].token_type;
        if k == TokenType::RParen {
            proof {
                assert(toks[q as int].kind != TokenType::EndMarker);
                assert(view_exprs(args@) + Seq::<ExprV>::empty() =~= view_exprs(args@));
            }
            return Ok((args, q + 1));
        }
        match parse_expr(tokens, q) {
            Err(e) => {
                return Err(e);
            },
            Ok((a, q2)) => {
                let k2 = tokens[q2].token_type;
                if k2 == TokenType::Comma {
                    proof {
                        assert(toks[q2 as int].kind != TokenType::EndMarker);
                        crate::ast::lemma_view_exprs_push(args0, a);
                        match spec_parse_args(toks, q2 + 1) {
                            Ok((more, n)) => {
                                assert(view_exprs(args0) + (seq![view_expr(a)] + more)
                                    =~= view_exprs(args0.push(a)) + more);
                            },
                            Err(er) => {},
                        }
                    }
                    args.push(a);
                    q = q2 + 1;
                } else if k2 == TokenType::RParen {
                    proof {
                        assert(toks[q2 as int].kind != TokenType::EndMarker);
                        crate::ast::lemma_view_exprs_push(args0, a);
                        assert(view_exprs(args0) + seq![view_expr(a)] =~= view_exprs(
                            args0.push(a),
                        ));
                    }
                    args.push(a);
                    return Ok((args, q2 + 1));
                } else {
                    return Err(
                        ParseError {
                            expected: Expected::Token(TokenType::Comma),
                            found: k2,
                            position: q2,
                        },
                    );
                }
            },
        }
    }
}

/// A call expression: a primary followed by any number of parenthesized
/// argument lists, so `f(x)(y)` parses as nested calls.
#[verifier::rlimit(100)]
pub fn parse_call(tokens: &Vec<Token>, pos: usize) -> (r: Result<(Expr, usize), ParseError>)
    requires
        tokens_wf(tokens.deep_view()),
        pos < tokens@.len(),
    ensures
        match r {
            Ok((e, next)) => {
                &&& spec_parse_call(tokens.deep_view(), pos as int) == Ok::<
                    (ExprV, int),
                    ParseError,
                >((view_expr(e), next as int))
                &&& pos < next < tokens@.len()
            },
            Err(pe) => spec_parse_call(tokens.deep_view(), pos as int) == Err::<
                (ExprV, int),
                ParseError,
            >(pe),
        },
    decreases tokens@.len() - pos, 2int,
{
    let ghost toks = tokens.deep_view();
    let n = tokens.len();
    match parse_primary(tokens, pos) {
        Err(e) => Err(e),
        Ok((e0, p0)) => {
            let mut e = e0;
            let mut p = p0;
            loop
                invariant
                    tokens_wf(tokens.deep_view()),
                    toks == tokens.deep_view(),
                    n == tokens@.len(),
                    pos < p < tokens@.len(),
                    spec_parse_call(toks, pos as int) == spec_call_rest(
                        toks,
                        p as int,
                        view_expr(e),
                    ),
                decreases tokens@.len() - p,
            {
                let k = tokens[p].token_type;
                if k != TokenType::LParen {
                    return Ok((e, p));
                }
                proof {
                    assert(toks[p as int].kind != TokenType::EndMarker);
                }
                match parse_call_args(tokens, p + 1) {
                    Err(er) => {
                        return Err(er);
                    },
                    Ok((args, p2)) => {
                        e = Expr::Call(Box::new(e), args);
                        p = p2;
                    },
                }
            }
        },
    }
}

/// A unary expression: `-` applied to a unary expression desugars to
/// `0 - operand`; otherwise a call expression.
#[verifier::rlimit(100)]
pub fn parse_unary(tokens: &Vec<Token>, pos: usize) -> (r: Result<(Expr, usize), ParseError>)
    requires
        tokens_wf(tokens.deep_view()),
        pos < tokens@.len(),
    ensures
        match r {
            Ok((e, next)) => {
                &&& spec_parse_unary(tokens.deep_view(), pos as int) == Ok::<
                    (ExprV, int),
                    ParseError,
                >((view_expr(e), next as int))
                &&& pos < next < tokens@.len()
            },
            Err(pe) => spec_parse_unary(tokens.deep_view(), pos as int) == Err::<
                (ExprV, int),
                ParseError,
            >(pe),
        },
    decreases tokens@.len() - pos, 3int,
{
    let ghost toks = tokens.deep_view();
    proof {
        assert(toks[pos as int] == tokens@[pos as int]@);
    }
    let n = tokens.len();
    let k = tokens[pos].token_type;
    if k == TokenType::Minus {
        proof {
            assert(toks[pos as int].kind != TokenType::EndMarker);
        }
        match parse_unary(tokens, pos + 1) {
            Ok((e, p2)) => {
                let op = tokens[pos].duplicate();
                proof {
                    assert(view_expr(Expr::IntLiteral(0)) == ExprV::IntLiteral(0));
                }
                Ok((Expr::BinaryOp(Box::new(Expr::IntLiteral(0)), Box::new(e), op), p2))
            },
            Err(e) => Err(e),
        }
    } else {
        parse_call(tokens, pos)
    }
}


/// A factor: unary expressions joined by `*` / `/`, left-associative.
#[verifier::rlimit(100)]
pub fn parse_factor(tokens: &Vec<Token>, pos: usize) -> (r: Result<(Expr, usize), ParseError>)
    requires
        tokens_wf(tokens.deep_view()),
        pos < tokens@.len(),
    ensures
        match r {
            Ok((e, next)) => {
                &&& spec_parse_factor(tokens.deep_view(), pos as int) == Ok::<
                    (ExprV, int),
                    ParseError,
                >((view_expr(e), next as int))
                &&& pos < next < tokens@.len()
            },
            Err(pe) => spec_parse_factor(tokens.deep_view(), pos as int) == Err::<
                (ExprV, int),
                ParseError,
            >(pe),
        },
    decreases tokens@.len() - pos, 5int,
{
    let ghost toks = tokens.deep_view();
    let n = tokens.len();
    match parse_unary(tokens, pos) {
        Err(e) => Err(e),
        Ok((e0, p0)) => {
            let mut e = e0;
            let mut p = p0;
            loop
                invariant
                    tokens_wf(tokens.deep_view()),
                    toks == tokens.deep_view(),
                    n == tokens@.len(),
                    pos < p < tokens@.len(),
                    spec_parse_factor(toks, pos as int) == spec_factor_rest(
                        toks,
                        p as int,
                        view_expr(e),
                    ),
                decreases tokens@.len() - p,
            {
                let k = tokens[p].token_type;
                if !(k == TokenType::Mul || k == TokenType::Div) {
                    return Ok((e, p));
                }
                proof {
                    assert(toks[p as int].kind != TokenType::EndMarker);
                }
                match parse_unary(tokens, p + 1) {
                    Err(er) => {
                        return Err(er);
                    },
                    Ok((r2, p2)) => {
                        let op = tokens[p].duplicate();
                        e = Expr::BinaryOp(Box::new(e), Box::new(r2), op);
                        p = p2;
                    },
                }
            }
        },
    }
}

/// A term: factors joined by `+` / `-`, left-associative.
#[verifier::rlimit(100)]
pub fn parse_term(tokens: &Vec<Token>, pos: usize) -> (r: Result<(Expr, usize), ParseError>)
    requires
        tokens_wf(tokens.deep_view()),
        pos < tokens@.len(),
    ensures
        match r {
            Ok((e, next)) => {
                &&& spec_parse_term(tokens.deep_view(), pos as int) == Ok::<
                    (ExprV, int),
                    ParseError,
                >((view_expr(e), next as int))
                &&& pos < next < tokens@.len()
            },
            Err(pe) => spec_parse_term(tokens.deep_view(), pos as int) == Err::<
                (ExprV, int),
                ParseError,
            >(pe),
        },
    decreases tokens@.len() - pos, 7int,
{
    let ghost toks = tokens.deep_view();
    let n = tokens.len();
    match parse_factor(tokens, pos) {
        Err(e) => Err(e),
        Ok((e0, p0)) => {
            let mut e = e0;
            let mut p = p0;
            loop
                invariant
                    tokens_wf(tokens.deep_view()),
                    toks == tokens.deep_view(),
                    n == tokens@.len(),
                    pos < p < tokens@.len(),
                    spec_parse_term(toks, pos as int) == spec_term_rest(
                        toks,
                        p as int,
                        view_expr(e),
                    ),
                decreases tokens@.len() - p,
            {
                let k = tokens[p].token_type;
                if !(k == TokenType::Plus || k == TokenType::Minus) {
                    return Ok((e, p));
                }
                proof {
                    assert(toks[p as int].kind != TokenType::EndMarker);
                }
                match parse_factor(tokens, p + 1) {
                    Err(er) => {
                        return Err(er);
                    },
                    Ok((r2, p2)) => {
                        let op = tokens[p].duplicate();
                        e = Expr::BinaryOp(Box::new(e), Box::new(r2), op);
                        p = p2;
                    },
                }
            }
        },
    }
}

/// A comparison: terms joined by `<`, left-associative.
#[verifier::rlimit(100)]
pub fn parse_comparison(tokens: &Vec<Token>, pos: usize) -> (r: Result<(Expr, usize), ParseError>)
    requires
        tokens_wf(tokens.deep_view()),
        pos < tokens@.len(),
    ensures
        match r {
            Ok((e, next)) => {
                &&& spec_parse_comparison(tokens.deep_view(), pos as int) == Ok::<
                    (ExprV, int),
                    ParseError,
                >((view_expr(e), next as int))
                &&& pos < next < tokens@.len()
            },
            Err(pe) => spec_parse_comparison(tokens.deep_view(), pos as int) == Err::<
                (ExprV, int),
                ParseError,
            >(pe),
        },
    decreases tokens@.len() - pos, 9int,
{
    let ghost toks = tokens.deep_view();
    let n = tokens.len();
    match parse_term(tokens, pos) {
        Err(e) => Err(e),
        Ok((e0, p0)) => {
            let mut e = e0;
            let mut p = p0;
            loop
                invariant
                    tokens_wf(tokens.deep_view()),
                    toks == tokens.deep_view(),
                    n == tokens@.len(),
                    pos < p < tokens@.len(),
                    spec_parse_comparison(toks, pos as int) == spec_cmp_rest(
                        toks,
                        p as int,
                        view_expr(e),
                    ),
                decreases tokens@.len() - p,
            {
                let k = tokens[p].token_type;
                if !(k == TokenType::LessThan) {
                    return Ok((e, p));
                }
                proof {
                    assert(toks[p as int].kind != TokenType::EndMarker);
                }
                match parse_term(tokens, p + 1) {
                    Err(er) => {
                        return Err(er);
                    },
                    Ok((r2, p2)) => {
                        let op = tokens[p].duplicate();
                        e = Expr::BinaryOp(Box::new(e), Box::new(r2), op);
                        p = p2;
                    },
                }
            }
        },
    }
}

/// An equality: comparisons joined by `==` / `!=`, left-associative.
#[verifier::rlimit(100)]
pub fn parse_equality(tokens: &Vec<Token>, pos: usize) -> (r: Result<(Expr, usize), ParseError>)
    requires
        tokens_wf(tokens.deep_view()),
        pos < tokens@.len(),
    ensures
        match r {
            Ok((e, next)) => {
                &&& spec_parse_equality(tokens.deep_view(), pos as int) == Ok::<
                    (ExprV, int),
                    ParseError,
                >((view_expr(e), next as int))
                &&& pos < next < tokens@.len()
            },
            Err(pe) => spec_parse_equality(tokens.deep_view(), pos as int) == Err::<
                (ExprV, int),
                ParseError,
            >(pe),
        },
    decreases tokens@.len() - pos, 11int,
{
    let ghost toks = tokens.deep_view();
    let n = tokens.len();
    match parse_comparison(tokens, pos) {
        Err(e) => {
            proof {
                assert(spec_parse_equality(toks, pos as int) == Err::<(ExprV, int), ParseError>(
                    e,
                )) by {
                    reveal(spec_parse_equality);
                }
            }
            Err(e)
        },
        Ok((e0, p0)) => {
            proof {
                assert(spec_parse_equality(toks, pos as int) == spec_eq_rest(
                    toks,
                    p0 as int,
                    view_expr(e0),
                )) by {
                    reveal(spec_parse_equality);
                }
            }
            let mut e = e0;
            let mut p = p0;
            loop
                invariant
                    tokens_wf(tokens.deep_view()),
                    toks == tokens.deep_view(),
                    n == tokens@.len(),
                    pos < p < tokens@.len(),
                    spec_parse_equality(toks, pos as int) == spec_eq_rest(
                        toks,
                        p as int,
                        view_expr(e),
                    ),
                decreases tokens@.len() - p,
            {
                let k = tokens[p].token_type;
                if !(k == TokenType::EqualEqual || k == TokenType::BangEqual) {
                    return Ok((e, p));
                }
                proof {
                    assert(toks[p as int].kind != TokenType::EndMarker);
                }
                match parse_comparison(tokens, p + 1) {
                    Err(er) => {
                        return Err(er);
                    },
                    Ok((r2, p2)) => {
                        let op = tokens[p].duplicate();
                        e = Expr::BinaryOp(Box::new(e), Box::new(r2), op);
                        p = p2;
                    },
                }
            }
        },
    }
}

/// An assignment: an equality optionally followed by `=` and a full
/// expression (right-associative). The target is only checked to be an
/// identifier at evaluation time, so `1 = 2` parses.
#[verifier::rlimit(100)]
#[verifier::spinoff_prover]
pub fn parse_assignment(tokens: &Vec<Token>, pos: usize) -> (r: Result<(Expr, usize), ParseError>)
    requires
        tokens_wf(tokens.deep_view()),
        pos < tokens@.len(),
    ensures
        match r {
            Ok((e, next)) => {
                &&& spec_parse_assignment(tokens.deep_view(), pos as int) == Ok::<
                    (ExprV, int),
                    ParseError,
                >((view_expr(e), next as int))
                &&& pos < next < tokens@.len()
            },
            Err(pe) => spec_parse_assignment(tokens.deep_view(), pos as int) == Err::<
                (ExprV, int),
                ParseError,
            >(pe),
        },
    decreases tokens@.len() - pos, 12int,
{
    let ghost toks = tokens.deep_view();
    let n = tokens.len();
    match parse_equality(tokens, pos) {
        Err(e) => {
            proof {
                assert(spec_parse_assignment(toks, pos as int) == Err::<
                    (ExprV, int),
                    ParseError,
                >(e)) by {
                    reveal(spec_parse_assignment);
                }
            }
            Err(e)
        },
        Ok((name, p2)) => {
            let k = tokens[p2].token_type;
            if k == TokenType::Assign {
                proof {
                    assert(toks[p2 as int].kind != TokenType::EndMarker);
                }
                parse_assignment_rhs(tokens, Ghost(pos as int), p2, name)
            } else {
                proof {
                    assert(spec_parse_assignment(toks, pos as int) == Ok::<
                        (ExprV, int),
                        ParseError,
                    >((view_expr(name), p2 as int))) by {
                        reveal(spec_parse_assignment);
                    }
                }
                Ok((name, p2))
            }
        },
    }
}

/// A full expression: the lowest precedence level, assignment.
#[verifier::rlimit(100)]
pub fn parse_expr(tokens: &Vec<Token>, pos: usize) -> (r: Result<(Expr, usize), ParseError>)
    requires
        tokens_wf(tokens.deep_view()),
        pos < tokens@.len(),
    ensures
        match r {
            Ok((e, next)) => {
                &&& spec_parse_expr(tokens.deep_view(), pos as int) == Ok::<
                    (ExprV, int),
                    ParseError,
                >((view_expr(e), next as int))
                &&& pos < next < tokens@.len()
            },
            Err(pe) => spec_parse_expr(tokens.deep_view(), pos as int) == Err::<
                (ExprV, int),
                ParseError,
            >(pe),
        },
    decreases tokens@.len() - pos, 13int,
{
    parse_assignment(tokens, pos)
}


/// The right-hand side of an assignment, after the `=` at `p2`.
#[verifier::rlimit(100)]
#[verifier::spinoff_prover]
fn parse_assignment_rhs(tokens: &Vec<Token>, Ghost(pos): Ghost<int>, p2: usize, name: Expr) -> (r:
    Result<(Expr, usize), ParseError>)
    requires
        tokens_wf(tokens.deep_view()),
        0 <= pos < p2,
        p2 < tokens@.len(),
        tokens.deep_view()[p2 as int].kind == TokenType::Assign,
        spec_parse_equality(tokens.deep_view(), pos) == Ok::<(ExprV, int), ParseError>(
            (view_expr(name), p2 as int),
        ),
    ensures
        match r {
            Ok((e, next)) => {
                &&& spec_parse_assignment(tokens.deep_view(), pos) == Ok::<
                    (ExprV, int),
                    ParseError,
                >((view_expr(e), next as int))
                &&& pos < next < tokens@.len()
            },
            Err(pe) => spec_parse_assignment(tokens.deep_view(), pos) == Err::<
                (ExprV, int),
                ParseError,
            >(pe),
        },
    decreases tokens@.len() - p2, 0int,
{
    let ghost toks = tokens.deep_view();
    let n = tokens.len();
    proof {
        assert(toks[p2 as int].kind != TokenType::EndMarker);
    }
    match parse_expr(tokens, p2 + 1) {
        Ok((v, p3)) => {
            let ghost vname = view_expr(name);
            let ghost vv = view_expr(v);
            let res = Expr::Assign(Box::new(name), Box::new(v));
            proof {
                assert(view_expr(res) == ExprV::Assign(Box::new(vname), Box::new(vv)));
                assert(spec_parse_assignment(tokens.deep_view(), pos) == Ok::<
                    (ExprV, int),
                    ParseError,
                >((ExprV::Assign(Box::new(vname), Box::new(vv)), p3 as int))) by {
                    reveal(spec_parse_assignment);
                }
            }
            Ok((res, p3))
        },
        Err(e) => {
            proof {
                assert(spec_parse_assignment(tokens.deep_view(), pos) == Err::<
                    (ExprV, int),
                    ParseError,
                >(e)) by {
                    reveal(spec_parse_assignment);
                }
            }
            Err(e)
        },
    }
}


/// Move past any run of `NewLine` tokens.
pub fn skip_newline(tokens: &Vec<Token>, pos: usize) -> (r: usize)
    requires
        tokens_wf(tokens.deep_view()),
        pos < tokens@.len(),
    ensures
        r as int == spec_skip_newlines(tokens.deep_view(), pos as int),
        pos <= r < tokens@.len(),
{
    let ghost toks = tokens.deep_view();
    let n = tokens.len();
    let mut cur = pos;
    #[verifier::loop_isolation(false)]
    loop
        invariant
            pos <= cur < tokens@.len(),
            spec_skip_newlines(toks, pos as int) == spec_skip_newlines(toks, cur as int),
        decreases tokens@.len() - cur,
    {
        if tokens[cur].token_type == TokenType::NewLine {
            proof {
                assert(toks[cur as int].kind != TokenType::EndMarker);
            }
            cur = cur + 1;
        } else {
            return cur;
        }
    }
}

/// The parameter list of a function definition, after the opening
/// parenthesis.
fn parse_params(tokens: &Vec<Token>, pos: usize) -> (r: Result<(Vec<Expr>, usize), ParseError>)
    requires
        tokens_wf(tokens.deep_view()),
        pos < tokens@.len(),
    ensures
        match r {
            Ok((params, next)) => {
                &&& spec_param_items(tokens.deep_view(), pos as int) == Ok::<
                    (Seq<ExprV>, int),
                    ParseError,
                >((view_exprs(params@), next as int))
                &&& pos < next < tokens@.len()
            },
            Err(pe) => spec_param_items(tokens.deep_view(), pos as int) == Err::<
                (Seq<ExprV>, int),
                ParseError,
            >(pe),
        },
{
    let ghost toks = tokens.deep_view();
    let n = tokens.len();
    let mut params: Vec<Expr> = Vec::new();
    let mut q = pos;
    #[verifier::loop_isolation(false)]
    loop
        invariant
            pos <= q < tokens@.len(),
            match spec_param_items(toks, q as int) {
                Ok((more, n2)) => spec_param_items(toks, pos as int) == Ok::<
                    (Seq<ExprV>, int),
                    ParseError,
                >((view_exprs(params@) + more, n2)),
                Err(er) => spec_param_items(toks, pos as int) == Err::<
                    (Seq<ExprV>, int),
                    ParseError,
                >(er),
            },
        decreases tokens@.len() - q,
    {
        let ghost params0 = params@;
        let k = tokens[q].token_type;
        if k == TokenType::RParen {
            proof {
                assert(toks[q as int].kind != TokenType::EndMarker);
                assert(view_exprs(params@) + Seq::<ExprV>::empty() =~= view_exprs(params@));
            }
            return Ok((params, q + 1));
        }
        match parse_identifier(tokens, q) {
            Err(e) => {
                return Err(e);
            },
            Ok((p, q2)) => {
                let k2 = tokens[q2].token_type;
                if k2 == TokenType::Comma {
                    proof {
                        assert(toks[q2 as int].kind != TokenType::EndMarker);
                        crate::ast::lemma_view_exprs_push(params0, p);
                        match spec_param_items(toks, q2 + 1) {
                            Ok((more, n2)) => {
                                assert(view_exprs(params0) + (seq![view_expr(p)] + more)
                                    =~= view_exprs(params0.push(p)) + more);
                            },
                            Err(er) => {},
                        }
                    }
                    params.push(p);
                    q = q2 + 1;
                } else if k2 == TokenType::RParen {
                    proof {
                        assert(toks[q2 as int].kind != TokenType::EndMarker);
                        crate::ast::lemma_view_exprs_push(params0, p);
                        assert(view_exprs(params0) + seq![view_expr(p)] =~= view_exprs(
                            params0.push(p),
                        ));
                    }
                    params.push(p);
                    return Ok((params, q2 + 1));
                } else {
                    return Err(
                        ParseError {
                            expected: Expected::Token(TokenType::Comma),
                            found: k2,
                            position: q2,
                        },
                    );
                }
            },
        }
    }
}

/// A block: `Indent`, then statements until the matching `Dedent`.
#[verifier::rlimit(100)]
pub fn parse_block(tokens: &Vec<Token>, pos: usize) -> (r: Result<(Stmt, usize), ParseError>)
    requires
        tokens_wf(tokens.deep_view()),
        pos < tokens@.len(),
    ensures
        match r {
            Ok((s, next)) => {
                &&& spec_parse_block(tokens.deep_view(), pos as int) == Ok::<
                    (StmtV, int),
                    ParseError,
                >((view_stmt(s), next as int))
                &&& pos < next < tokens@.len()
            },
            Err(pe) => spec_parse_block(tokens.deep_view(), pos as int) == Err::<
                (StmtV, int),
                ParseError,
            >(pe),
        },
    decreases tokens@.len() - pos, 16int,
{
    let ghost toks = tokens.deep_view();
    let n = tokens.len();
    let k = tokens[pos].token_type;
    if k != TokenType::Indent {
        return Err(
            ParseError { expected: Expected::Token(TokenType::Indent), found: k, position: pos },
        );
    }
    proof {
        assert(toks[pos as int].kind != TokenType::EndMarker);
    }
    let mut stmts: Vec<Stmt> = Vec::new();
    let mut q = pos + 1;
    #[verifier::loop_isolation(false)]
    loop
        invariant
            pos < q < tokens@.len(),
            match spec_block_items(toks, q as int) {
                Ok((more, n2)) => spec_block_items(toks, pos + 1) == Ok::<
                    (Seq<StmtV>, int),
                    ParseError,
                >((view_stmts(stmts@) + more, n2)),
                Err(er) => spec_block_items(toks, pos + 1) == Err::<
                    (Seq<StmtV>, int),
                    ParseError,
                >(er),
            },
        decreases tokens@.len() - q,
    {
        let ghost stmts0 = stmts@;
        let k2 = tokens[q].token_type;
        if k2 == TokenType::Dedent {
            proof {
                assert(toks[q as int].kind != TokenType::EndMarker);
                assert(view_stmts(stmts@) + Seq::<StmtV>::empty() =~= view_stmts(stmts@));
            }
            let res = Stmt::Block(stmts);
            proof {
                assert(view_stmt(res) == StmtV::Block(view_stmts(res->Block_0@)));
            }
            return Ok((res, q + 1));
        }
        match parse_stmt(tokens, q) {
            Err(e) => {
                return Err(e);
            },
            Ok((s, q2)) => {
                let q3 = skip_newline(tokens, q2);
                proof {
                    crate::ast::lemma_view_stmts_push(stmts0, s);
                    match spec_block_items(toks, q3 as int) {
                        Ok((more, n2)) => {
                            assert(view_stmts(stmts0) + (seq![view_stmt(s)] + more)
                                =~= view_stmts(stmts0.push(s)) + more);
                        },
                        Err(er) => {},
                    }
                }
                stmts.push(s);
                q = q3;
            },
        }
    }
}

/// A function definition: `def` name `(` parameters `)` `:` newline block.
#[verifier::rlimit(100)]
pub fn parse_def(tokens: &Vec<Token>, pos: usize) -> (r: Result<(Stmt, usize), ParseError>)
    requires
        tokens_wf(tokens.deep_view()),
        pos < tokens@.len(),
        tokens.deep_view()[pos as int].kind == TokenType::Def,
    ensures
        match r {
            Ok((s, next)) => {
                &&& spec_parse_def(tokens.deep_view(), pos as int) == Ok::<
                    (StmtV, int),
                    ParseError,
                >((view_stmt(s), next as int))
                &&& pos < next < tokens@.len()
            },
            Err(pe) => spec_parse_def(tokens.deep_view(), pos as int) == Err::<
                (StmtV, int),
                ParseError,
            >(pe),
        },
    decreases tokens@.len() - pos, 16int,
{
    let ghost toks = tokens.deep_view();
    let n = tokens.len();
    proof {
        assert(toks[pos as int].kind != TokenType::EndMarker);
    }
    match parse_identifier(tokens, pos + 1) {
        Err(e) => Err(e),
        Ok((name, p2)) => {
            let k = tokens[p2].token_type;
            if k != TokenType::LParen {
                return Err(
                    ParseError {
                        expected: Expected::Token(TokenType::LParen),
                        found: k,
                        position: p2,
                    },
                );
            }
            proof {
                assert(toks[p2 as int].kind != TokenType::EndMarker);
            }
            match parse_params(tokens, p2 + 1) {
                Err(e) => Err(e),
                Ok((params, p3)) => {
                    let k3 = tokens[p3].token_type;
                    if k3 != TokenType::Colon {
                        return Err(
                            ParseError {
                                expected: Expected::Token(TokenType::Colon),
                                found: k3,
                                position: p3,
                            },
                        );
                    }
                    proof {
                        assert(toks[p3 as int].kind != TokenType::EndMarker);
                    }
                    let p4 = skip_newline(tokens, p3 + 1);
                    match parse_block(tokens, p4) {
                        Err(e) => Err(e),
                        Ok((body, p5)) => {
                            let ghost vname = view_expr(name);
                            let ghost vparams = view_exprs(params@);
                            let ghost vbody = view_stmt(body);
                            let res = Stmt::Def(name, params, Box::new(body));
                            proof {
                                assert(view_stmt(res) == StmtV::Def(
                                    vname,
                                    vparams,
                                    Box::new(vbody),
                                ));
                            }
                            Ok((res, p5))
                        },
                    }
                },
            }
        },
    }
}

/// A conditional: `if` expr `:` newline block, optionally followed by
/// `else` `:` newline block.
#[verifier::rlimit(100)]
pub fn parse_if(tokens: &Vec<Token>, pos: usize) -> (r: Result<(Stmt, usize), ParseError>)
    requires
        tokens_wf(tokens.deep_view()),
        pos < tokens@.len(),
        tokens.deep_view()[pos as int].kind == TokenType::If,
    ensures
        match r {
            Ok((s, next)) => {
                &&& spec_parse_if(tokens.deep_view(), pos as int) == Ok::<
                    (StmtV, int),
                    ParseError,
                >((view_stmt(s), next as int))
                &&& pos < next < tokens@.len()
            },
            Err(pe) => spec_parse_if(tokens.deep_view(), pos as int) == Err::<
                (StmtV, int),
                ParseError,
            >(pe),
        },
    decreases tokens@.len() - pos, 16int,
{
    let ghost toks = tokens.deep_view();
    let n = tokens.len();
    proof {
        assert(toks[pos as int].kind != TokenType::EndMarker);
    }
    match parse_expr(tokens, pos + 1) {
        Err(e) => Err(e),
        Ok((cond, p2)) => {
            let k = tokens[p2].token_type;
            if k != TokenType::Colon {
                return Err(
                    ParseError {
                        expected: Expected::Token(TokenType::Colon),
                        found: k,
                        position: p2,
                    },
                );
            }
            proof {
                assert(toks[p2 as int].kind != TokenType::EndMarker);
            }
            let p3 = skip_newline(tokens, p2 + 1);
            match parse_block(tokens, p3) {
                Err(e) => Err(e),
                Ok((body, p4)) => {
                    let k4 = tokens[p4].token_type;
                    if k4 == TokenType::Else {
                        proof {
                            assert(toks[p4 as int].kind != TokenType::EndMarker);
                        }
                        let k5 = tokens[p4 + 1].token_type;
                        if k5 != TokenType::Colon {
                            return Err(
                                ParseError {
                                    expected: Expected::Token(TokenType::Colon),
                                    found: k5,
                                    position: p4 + 1,
                                },
                            );
                        }
                        proof {
                            assert(toks[p4 + 1].kind != TokenType::EndMarker);
                        }
                        let p5 = skip_newline(tokens, p4 + 2);
                        match parse_block(tokens, p5) {
                            Err(e) => Err(e),
                            Ok((els, p6)) => {
                                let ghost vcond = view_expr(cond);
                                let ghost vbody = view_stmt(body);
                                let ghost vels = view_stmt(els);
                                let res = Stmt::If(
                                    cond,
                                    Box::new(body),
                                    Some(Box::new(els)),
                                );
                                proof {
                                    assert(view_stmt(res) == StmtV::If(
                                        vcond,
                                        Box::new(vbody),
                                        Some(Box::new(vels)),
                                    ));
                                }
                                Ok((res, p6))
                            },
                        }
                    } else {
                        let ghost vcond = view_expr(cond);
                        let ghost vbody = view_stmt(body);
                        let res = Stmt::If(cond, Box::new(body), None);
                        proof {
                            assert(view_stmt(res) == StmtV::If(vcond, Box::new(vbody), None));
                        }
                        Ok((res, p4))
                    }
                },
            }
        },
    }
}

/// A loop: `while` expr `:` newline block.
#[verifier::rlimit(100)]
pub fn parse_while(tokens: &Vec<Token>, pos: usize) -> (r: Result<(Stmt, usize), ParseError>)
    requires
        tokens_wf(tokens.deep_view()),
        pos < tokens@.len(),
        tokens.deep_view()[pos as int].kind == TokenType::While,
    ensures
        match r {
            Ok((s, next)) => {
                &&& spec_parse_while(tokens.deep_view(), pos as int) == Ok::<
                    (StmtV, int),
                    ParseError,
                >((view_stmt(s), next as int))
                &&& pos < next < tokens@.len()
            },
            Err(pe) => spec_parse_while(tokens.deep_view(), pos as int) == Err::<
                (StmtV, int),
                ParseError,
            >(pe),
        },
    decreases tokens@.len() - pos, 16int,
{
    let ghost toks = tokens.deep_view();
    let n = tokens.len();
    proof {
        assert(toks[pos as int].kind != TokenType::EndMarker);
    }
    match parse_expr(tokens, pos + 1) {
        Err(e) => Err(e),
        Ok((cond, p2)) => {
            let k = tokens[p2].token_type;
            if k != TokenType::Colon {
                return Err(
                    ParseError {
                        expected: Expected::Token(TokenType::Colon),
                        found: k,
                        position: p2,
                    },
                );
            }
            proof {
                assert(toks[p2 as int].kind != TokenType::EndMarker);
            }
            let p3 = skip_newline(tokens, p2 + 1);
            match parse_block(tokens, p3) {
                Err(e) => Err(e),
                Ok((body, p4)) => {
                    let ghost vcond = view_expr(cond);
                    let ghost vbody = view_stmt(body);
                    let res = Stmt::While(cond, Box::new(body));
                    proof {
                        assert(view_stmt(res) == StmtV::While(vcond, Box::new(vbody)));
                    }
                    Ok((res, p4))
                },
            }
        },
    }
}

/// A break statement: the `break` keyword alone.
pub fn parse_break(tokens: &Vec<Token>, pos: usize) -> (r: Result<(Stmt, usize), ParseError>)
    requires
        tokens_wf(tokens.deep_view()),
        pos < tokens@.len(),
        tokens.deep_view()[pos as int].kind == TokenType::Break,
    ensures
        match r {
            Ok((s, next)) => {
                &&& spec_parse_break(tokens.deep_view(), pos as int) == Ok::<
                    (StmtV, int),
                    ParseError,
                >((view_stmt(s), next as int))
                &&& pos < next < tokens@.len()
            },
            Err(pe) => false,
        },
{
    let ghost toks = tokens.deep_view();
    let n = tokens.len();
    proof {
        assert(toks[pos as int].kind != TokenType::EndMarker);
    }
    Ok((Stmt::Break, pos + 1))
}

/// A return statement: `return` followed by an expression.
#[verifier::rlimit(100)]
pub fn parse_return(tokens: &Vec<Token>, pos: usize) -> (r: Result<(Stmt, usize), ParseError>)
    requires
        tokens_wf(tokens.deep_view()),
        pos < tokens@.len(),
        tokens.deep_view()[pos as int].kind == TokenType::Return,
    ensures
        match r {
            Ok((s, next)) => {
                &&& spec_parse_return(tokens.deep_view(), pos as int) == Ok::<
                    (StmtV, int),
                    ParseError,
                >((view_stmt(s), next as int))
                &&& pos < next < tokens@.len()
            },
            Err(pe) => spec_parse_return(tokens.deep_view(), pos as int) == Err::<
                (StmtV, int),
                ParseError,
            >(pe),
        },
    decreases tokens@.len() - pos, 16int,
{
    let ghost toks = tokens.deep_view();
    let n = tokens.len();
    proof {
        assert(toks[pos as int].kind != TokenType::EndMarker);
    }
    match parse_expr(tokens, pos + 1) {
        Err(e) => Err(e),
        Ok((e, p2)) => {
            let ghost ve = view_expr(e);
            let res = Stmt::Return(e);
            proof {
                assert(view_stmt(res) == StmtV::Return(ve));
            }
            Ok((res, p2))
        },
    }
}

/// A print statement: `print` followed by an expression.
#[verifier::rlimit(100)]
pub fn parse_print(tokens: &Vec<Token>, pos: usize) -> (r: Result<(Stmt, usize), ParseError>)
    requires
        tokens_wf(tokens.deep_view()),
        pos < tokens@.len(),
        tokens.deep_view()[pos as int].kind == TokenType::Print,
    ensures
        match r {
            Ok((s, next)) => {
                &&& spec_parse_print(tokens.deep_view(), pos as int) == Ok::<
                    (StmtV, int),
                    ParseError,
                >((view_stmt(s), next as int))
                &&& pos < next < tokens@.len()
            },
            Err(pe) => spec_parse_print(tokens.deep_view(), pos as int) == Err::<
                (StmtV, int),
                ParseError,
            >(pe),
        },
    decreases tokens@.len() - pos, 16int,
{
    let ghost toks = tokens.deep_view();
    let n = tokens.len();
    proof {
        assert(toks[pos as int].kind != TokenType::EndMarker);
    }
    match parse_expr(tokens, pos + 1) {
        Err(e) => Err(e),
        Ok((e, p2)) => {
            let ghost ve = view_expr(e);
            let res = Stmt::Print(e);
            proof {
                assert(view_stmt(res) == StmtV::Print(ve));
            }
            Ok((res, p2))
        },
    }
}

/// An expression statement: an expression terminated by its `NewLine`
/// (consumed), or standing last before the `EndMarker` (not consumed).
#[verifier::rlimit(100)]
pub fn parse_expr_stmt(tokens: &Vec<Token>, pos: usize) -> (r: Result<(Stmt, usize), ParseError>)
    requires
        tokens_wf(tokens.deep_view()),
        pos < tokens@.len(),
    ensures
        match r {
            Ok((s, next)) => {
                &&& spec_parse_expr_stmt(tokens.deep_view(), pos as int) == Ok::<
                    (StmtV, int),
                    ParseError,
                >((view_stmt(s), next as int))
                &&& pos < next < tokens@.len()
            },
            Err(pe) => spec_parse_expr_stmt(tokens.deep_view(), pos as int) == Err::<
                (StmtV, int),
                ParseError,
            >(pe),
        },
    decreases tokens@.len() - pos, 15int,
{
    let ghost toks = tokens.deep_view();
    let n = tokens.len();
    match parse_expr(tokens, pos) {
        Err(e) => Err(e),
        Ok((e, p2)) => {
            let k = tokens[p2].token_type;
            let ghost ve = view_expr(e);
            if k == TokenType::NewLine {
                proof {
                    assert(toks[p2 as int].kind != TokenType::EndMarker);
                }
                let res = Stmt::Expr(e);
                proof {
                    assert(view_stmt(res) == StmtV::Expr(ve));
                }
                Ok((res, p2 + 1))
            } else if k == TokenType::EndMarker {
                let res = Stmt::Expr(e);
                proof {
                    assert(view_stmt(res) == StmtV::Expr(ve));
                }
                Ok((res, p2))
            } else {
                Err(
                    ParseError {
                        expected: Expected::Token(TokenType::NewLine),
                        found: k,
                        position: p2,
                    },
                )
            }
        },
    }
}

/// One statement, dispatched on the keyword at the cursor.
#[verifier::rlimit(100)]
pub fn parse_stmt(tokens: &Vec<Token>, pos: usize) -> (r: Result<(Stmt, usize), ParseError>)
    requires
        tokens_wf(tokens.deep_view()),
        pos < tokens@.len(),
    ensures
        match r {
            Ok((s, next)) => {
                &&& spec_parse_stmt(tokens.deep_view(), pos as int) == Ok::<
                    (StmtV, int),
                    ParseError,
                >((view_stmt(s), next as int))
                &&& pos < next < tokens@.len()
            },
            Err(pe) => spec_parse_stmt(tokens.deep_view(), pos as int) == Err::<
                (StmtV, int),
                ParseError,
            >(pe),
        },
    decreases tokens@.len() - pos, 17int,
{
    let k = tokens[pos].token_type;
    match k {
        TokenType::Def => parse_def(tokens, pos),
        TokenType::If => parse_if(tokens, pos),
        TokenType::Return => parse_return(tokens, pos),
        TokenType::While => parse_while(tokens, pos),
        TokenType::Break => parse_break(tokens, pos),
        TokenType::Print => parse_print(tokens, pos),
        _ => parse_expr_stmt(tokens, pos),
    }
}

/// The statements of a whole program: newline-separated statements up to
/// the `EndMarker`.
#[verifier::rlimit(100)]
pub fn parse_program(tokens: &Vec<Token>, pos: usize) -> (r: Result<
    (Vec<Stmt>, usize),
    ParseError,
>)
    requires
        tokens_wf(tokens.deep_view()),
        pos < tokens@.len(),
    ensures
        match r {
            Ok((stmts, next)) => {
                &&& spec_prog_items(tokens.deep_view(), pos as int) == Ok::<
                    (Seq<StmtV>, int),
                    ParseError,
                >((view_stmts(stmts@), next as int))
                &&& pos <= next < tokens@.len()
            },
            Err(pe) => spec_prog_items(tokens.deep_view(), pos as int) == Err::<
                (Seq<StmtV>, int),
                ParseError,
            >(pe),
        },
{
    let ghost toks = tokens.deep_view();
    let n = tokens.len();
    let mut stmts: Vec<Stmt> = Vec::new();
    let mut q = pos;
    #[verifier::loop_isolation(false)]
    loop
        invariant
            pos <= q < tokens@.len(),
            match spec_prog_items(toks, q as int) {
                Ok((more, n2)) => spec_prog_items(toks, pos as int) == Ok::<
                    (Seq<StmtV>, int),
                    ParseError,
                >((view_stmts(stmts@) + more, n2)),
                Err(er) => spec_prog_items(toks, pos as int) == Err::<
                    (Seq<StmtV>, int),
                    ParseError,
                >(er),
            },
        decreases tokens@.len() - q,
    {
        let ghost stmts0 = stmts@;
        let q1 = skip_newline(tokens, q);
        if tokens[q1].token_type == TokenType::EndMarker {
            proof {
                assert(view_stmts(stmts@) + Seq::<StmtV>::empty() =~= view_stmts(stmts@));
            }
            return Ok((stmts, q1));
        }
        match parse_stmt(tokens, q1) {
            Err(e) => {
                return Err(e);
            },
            Ok((s, q2)) => {
                proof {
                    crate::ast::lemma_view_stmts_push(stmts0, s);
                    match spec_prog_items(toks, q2 as int) {
                        Ok((more, n2)) => {
                            assert(view_stmts(stmts0) + (seq![view_stmt(s)] + more)
                                =~= view_stmts(stmts0.push(s)) + more);
                        },
                        Err(er) => {},
                    }
                }
                stmts.push(s);
                q = q2;
            },
        }
    }
}

/// The abstract syntax tree of a whole token stream, or the first parse
/// error.
pub fn parse(tokens: Vec<Token>) -> (r: Result<Vec<Stmt>, ParseError>)
    requires
        tokens_wf(tokens.deep_view()),
    ensures
        match r {
            Ok(stmts) => spec_parse_program(tokens.deep_view()) == Ok::<Seq<StmtV>, ParseError>(
                view_stmts(stmts@),
            ),
            Err(pe) => spec_parse_program(tokens.deep_view()) == Err::<Seq<StmtV>, ParseError>(pe),
        },
{
    match parse_program(&tokens, 0) {
        Ok((stmts, _)) => Ok(stmts),
        Err(e) => Err(e),
    }
}

} // verus!
