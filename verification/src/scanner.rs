//! The indentation-sensitive lexer. Source text is scanned line by line:
//! leading whitespace is measured against a stack of open indentation
//! widths, synthesizing `Indent` / `Dedent` tokens; the rest of each line
//! is scanned left to right, longest match first; every logical line ends
//! with a `NewLine` token; at the end of input every open level is closed
//! by a `Dedent` and the stream ends with one `EndMarker`.
//!
//! The whole of lexing is pinned by `spec_tokenize`: the executable
//! scanner is proved to return exactly what that specification names.

use vstd::prelude::*;

use crate::token::{Token, TokenType, TokenV};

verus! {

/// What went wrong during lexing: an unrecognized character, or a dedent
/// that lands on no enclosing indentation width.
#[derive(Debug, PartialEq, Eq, Clone, Copy, Structural)]
pub enum LexErrorKind {
    UnrecognizedChar,
    InconsistentDedent,
}

/// A lexing failure: its kind, the offending character, and the character
/// position it was met at.
#[derive(Debug, PartialEq, Eq, Clone, Copy, Structural)]
pub struct LexError {
    pub kind: LexErrorKind,
    pub ch: char,
    pub position: usize,
}

/// Whitespace that does not end a line: space, tab, carriage return.
pub open spec fn is_space_char(c: char) -> bool {
    c == ' ' || c == '\t' || c == '\r'
}

/// An ASCII decimal digit.
pub open spec fn is_digit_char(c: char) -> bool {
    48 <= c as u32 <= 57
}

/// An ASCII letter.
pub open spec fn is_alpha_char(c: char) -> bool {
    (65 <= c as u32 && c as u32 <= 90) || (97 <= c as u32 && c as u32 <= 122)
}

/// A character that may continue an identifier: letter, digit, underscore.
pub open spec fn is_ident_char(c: char) -> bool {
    is_alpha_char(c) || is_digit_char(c) || c == '_'
}

/// A synthetic token: `Indent`, `Dedent` and `EndMarker` carry no text.
pub open spec fn synth_token(kind: TokenType) -> TokenV {
    TokenV { kind, text: Seq::empty() }
}

/// The token that ends a logical line.
pub open spec fn newline_token() -> TokenV {
    TokenV { kind: TokenType::NewLine, text: "\n"@ }
}

/// How many consecutive non-newline whitespace characters start at `pos`.
pub open spec fn count_spaces(src: Seq<char>, pos: int) -> nat
    decreases src.len() - pos,
{
    if pos < 0 || pos >= src.len() || !is_space_char(src[pos]) {
        0
    } else {
        (1 + count_spaces(src, pos + 1)) as nat
    }
}

/// How many consecutive identifier characters start at `pos`.
pub open spec fn ident_run(src: Seq<char>, pos: int) -> nat
    decreases src.len() - pos,
{
    if pos < 0 || pos >= src.len() || !is_ident_char(src[pos]) {
        0
    } else {
        (1 + ident_run(src, pos + 1)) as nat
    }
}

/// How many consecutive digits start at `pos`.
pub open spec fn digit_run(src: Seq<char>, pos: int) -> nat
    decreases src.len() - pos,
{
    if pos < 0 || pos >= src.len() || !is_digit_char(src[pos]) {
        0
    } else {
        (1 + digit_run(src, pos + 1)) as nat
    }
}

/// A whitespace run never reaches past the end of the source.
pub proof fn lemma_count_spaces_bound(src: Seq<char>, pos: int)
    requires
        pos <= src.len(),
    ensures
        pos + count_spaces(src, pos) <= src.len(),
    decreases src.len() - pos,
{
    if !(pos < 0 || pos >= src.len() || !is_space_char(src[pos])) {
        lemma_count_spaces_bound(src, pos + 1);
    }
}

/// An identifier run never reaches past the end of the source.
pub proof fn lemma_ident_run_bound(src: Seq<char>, pos: int)
    requires
        pos <= src.len(),
    ensures
        pos + ident_run(src, pos) <= src.len(),
    decreases src.len() - pos,
{
    if !(pos < 0 || pos >= src.len() || !is_ident_char(src[pos])) {
        lemma_ident_run_bound(src, pos + 1);
    }
}

/// A digit run never reaches past the end of the source.
pub proof fn lemma_digit_run_bound(src: Seq<char>, pos: int)
    requires
        pos <= src.len(),
    ensures
        pos + digit_run(src, pos) <= src.len(),
    decreases src.len() - pos,
{
    if !(pos < 0 || pos >= src.len() || !is_digit_char(src[pos])) {
        lemma_digit_run_bound(src, pos + 1);
    }
}

/// The kind an identifier-shaped word lexes to: a keyword of the fixed
/// table, or `Identifier`.
pub open spec fn spec_keyword_kind(text: Seq<char>) -> TokenType {
    if text == "def"@ {
        TokenType::Def
    } else if text == "if"@ {
        TokenType::If
    } else if text == "else"@ {
        TokenType::Else
    } else if text == "while"@ {
        TokenType::While
    } else if text == "return"@ {
        TokenType::Return
    } else if text == "break"@ {
        TokenType::Break
    } else if text == "print"@ {
        TokenType::Print
    } else {
        TokenType::Identifier
    }
}

/// What measuring a new line's width against the indentation stack yields:
/// the structural tokens to emit and the new stack, or a mismatch (the
/// dedent landed between two open widths).
pub ghost enum IndentOutcome {
    Tokens { toks: Seq<TokenV>, stack: Seq<usize> },
    Mismatch,
}

/// Compare a line's width with the stack of open widths: a greater width
/// opens a block (`Indent`), a smaller one closes blocks (`Dedent` per
/// pop) and must land exactly on a previously seen width.
pub open spec fn spec_indent(stack: Seq<usize>, width: nat) -> IndentOutcome
    recommends
        stack.len() >= 1,
{
    if stack.len() == 0 {
        IndentOutcome::Mismatch
    } else if width > stack.last() {
        IndentOutcome::Tokens {
            toks: seq![synth_token(TokenType::Indent)],
            stack: stack.push(width as usize),
        }
    } else if width == stack.last() {
        IndentOutcome::Tokens { toks: Seq::empty(), stack }
    } else {
        spec_dedent(stack, width)
    }
}

/// Close blocks until the width lands exactly on an open level: one
/// `Dedent` per pop; landing between two levels is a mismatch.
pub open spec fn spec_dedent(stack: Seq<usize>, width: nat) -> IndentOutcome
    recommends
        stack.len() >= 1,
        width < stack.last(),
    decreases stack.len(),
{
    if stack.len() == 0 {
        IndentOutcome::Mismatch
    } else {
        let popped = stack.drop_last();
        if popped.len() == 0 {
            IndentOutcome::Mismatch
        } else if width == popped.last() {
            IndentOutcome::Tokens { toks: seq![synth_token(TokenType::Dedent)], stack: popped }
        } else if width > popped.last() {
            IndentOutcome::Mismatch
        } else {
            match spec_dedent(popped, width) {
                IndentOutcome::Tokens { toks, stack: rest } => IndentOutcome::Tokens {
                    toks: seq![synth_token(TokenType::Dedent)] + toks,
                    stack: rest,
                },
                IndentOutcome::Mismatch => IndentOutcome::Mismatch,
            }
        }
    }
}

/// The tokens that close the stream at end of input: one `Dedent` per
/// still-open indentation level, then `EndMarker`.
pub open spec fn closing_tokens(stack: Seq<usize>) -> Seq<TokenV>
    decreases stack.len(),
{
    if stack.len() <= 1 {
        seq![synth_token(TokenType::EndMarker)]
    } else {
        seq![synth_token(TokenType::Dedent)] + closing_tokens(stack.drop_last())
    }
}

/// The remaining token stream from a scanner state: position `pos` in
/// `src`, open widths `stack`, and whether the scanner stands at the
/// start of a logical line.
pub open spec fn spec_scan(src: Seq<char>, pos: int, stack: Seq<usize>, line_start: bool) -> Result<
    Seq<TokenV>,
    LexError,
>
    recommends
        0 <= pos <= src.len(),
        stack.len() >= 1,
    decreases src.len() - pos, (if line_start { 1int } else { 0int }),
        via spec_scan_decreases
{
    if pos < 0 || pos > src.len() {
        Ok(closing_tokens(stack))
    } else {
        let w = count_spaces(src, pos);
        let p = pos + w;
        if p >= src.len() {
            Ok(closing_tokens(stack))
        } else if src[p] == '\n' {
            // A line holding only whitespace is blank: it yields a lone
            // `NewLine` and leaves the indentation stack untouched.
            match spec_scan(src, p + 1, stack, true) {
                Ok(ts) => Ok(seq![newline_token()] + ts),
                Err(e) => Err(e),
            }
        } else if line_start {
            match spec_indent(stack, w) {
                IndentOutcome::Tokens { toks, stack: st2 } => match spec_scan(src, p, st2, false) {
                    Ok(ts) => Ok(toks + ts),
                    Err(e) => Err(e),
                },
                IndentOutcome::Mismatch => Err(
                    LexError {
                        kind: LexErrorKind::InconsistentDedent,
                        ch: src[p],
                        position: p as usize,
                    },
                ),
            }
        } else {
            let c = src[p];
            if is_digit_char(c) {
                let n = digit_run(src, p);
                let tok = TokenV { kind: TokenType::Int, text: src.subrange(p, p + n) };
                match spec_scan(src, p + n, stack, false) {
                    Ok(ts) => Ok(seq![tok] + ts),
                    Err(e) => Err(e),
                }
            } else if is_alpha_char(c) {
                let n = ident_run(src, p);
                let text = src.subrange(p, p + n);
                let tok = TokenV { kind: spec_keyword_kind(text), text };
                match spec_scan(src, p + n, stack, false) {
                    Ok(ts) => Ok(seq![tok] + ts),
                    Err(e) => Err(e),
                }
            } else if c == '=' && p + 1 < src.len() && src[p + 1] == '=' {
                let tok = TokenV { kind: TokenType::EqualEqual, text: "=="@ };
                match spec_scan(src, p + 2, stack, false) {
                    Ok(ts) => Ok(seq![tok] + ts),
                    Err(e) => Err(e),
                }
            } else if c == '!' && p + 1 < src.len() && src[p + 1] == '=' {
                let tok = TokenV { kind: TokenType::BangEqual, text: "!="@ };
                match spec_scan(src, p + 2, stack, false) {
                    Ok(ts) => Ok(seq![tok] + ts),
                    Err(e) => Err(e),
                }
            } else {
                let kind = if c == '+' {
                    Some(TokenV { kind: TokenType::Plus, text: "+"@ })
                } else if c == '-' {
                    Some(TokenV { kind: TokenType::Minus, text: "-"@ })
                } else if c == '*' {
                    Some(TokenV { kind: TokenType::Mul, text: "*"@ })
                } else if c == '/' {
                    Some(TokenV { kind: TokenType::Div, text: "/"@ })
                } else if c == ':' {
                    Some(TokenV { kind: TokenType::Colon, text: ":"@ })
                } else if c == ',' {
                    Some(TokenV { kind: TokenType::Comma, text: ","@ })
                } else if c == '(' {
                    Some(TokenV { kind: TokenType::LParen, text: "("@ })
                } else if c == ')' {
                    Some(TokenV { kind: TokenType::RParen, text: ")"@ })
                } else if c == '<' {
                    Some(TokenV { kind: TokenType::LessThan, text: "<"@ })
                } else if c == '=' {
                    Some(TokenV { kind: TokenType::Assign, text: "="@ })
                } else {
                    None
                };
                match kind {
                    Some(tok) => match spec_scan(src, p + 1, stack, false) {
                        Ok(ts) => Ok(seq![tok] + ts),
                        Err(e) => Err(e),
                    },
                    None => Err(
                        LexError {
                            kind: LexErrorKind::UnrecognizedChar,
                            ch: c,
                            position: p as usize,
                        },
                    ),
                }
            }
        }
    }
}

#[via_fn]
proof fn spec_scan_decreases(src: Seq<char>, pos: int, stack: Seq<usize>, line_start: bool) {
    if 0 <= pos <= src.len() {
        lemma_count_spaces_bound(src, pos);
        let p = pos + count_spaces(src, pos);
        if p < src.len() {
            lemma_digit_run_bound(src, p);
            lemma_ident_run_bound(src, p);
        }
    }
}

/// The token stream of a whole source text: scanning starts at position 0,
/// at a line start, with only the root width 0 open.
pub open spec fn spec_tokenize(src: Seq<char>) -> Result<Seq<TokenV>, LexError> {
    spec_scan(src, 0, seq![0usize], true)
}

/// A run of `n` digits bounded by a non-digit (or the end of the source)
/// is exactly what `digit_run` counts.
proof fn lemma_digit_run_exact(src: Seq<char>, p: int, n: int)
    requires
        0 <= p,
        0 <= n,
        p + n <= src.len(),
        forall|i: int| 0 <= i < n ==> is_digit_char(#[trigger] src[p + i]),
        p + n == src.len() || !is_digit_char(src[p + n]),
    ensures
        digit_run(src, p) == n,
    decreases n,
{
    if n > 0 {
        assert(is_digit_char(src[p])) by {
            assert(src[p + 0] == src[p]);
        }
        assert forall|i: int| 0 <= i < n - 1 implies is_digit_char(#[trigger] src[p + 1 + i]) by {
            assert(src[p + 1 + i] == src[p + (i + 1)]);
        }
        lemma_digit_run_exact(src, p + 1, n - 1);
    }
}

/// A run of `n` identifier characters bounded by a non-identifier
/// character (or the end of the source) is exactly what `ident_run`
/// counts.
proof fn lemma_ident_run_exact(src: Seq<char>, p: int, n: int)
    requires
        0 <= p,
        0 <= n,
        p + n <= src.len(),
        forall|i: int| 0 <= i < n ==> is_ident_char(#[trigger] src[p + i]),
        p + n == src.len() || !is_ident_char(src[p + n]),
    ensures
        ident_run(src, p) == n,
    decreases n,
{
    if n > 0 {
        assert(is_ident_char(src[p])) by {
            assert(src[p + 0] == src[p]);
        }
        assert forall|i: int| 0 <= i < n - 1 implies is_ident_char(#[trigger] src[p + 1 + i]) by {
            assert(src[p + 1 + i] == src[p + (i + 1)]);
        }
        lemma_ident_run_exact(src, p + 1, n - 1);
    }
}

/// Whether `c` is whitespace that does not end a line.
pub(crate) fn is_space(c: char) -> (r: bool)
    ensures
        r == is_space_char(c),
{
    c == ' ' || c == '\t' || c == '\r'
}

/// Whether `c` is an ASCII decimal digit.
pub(crate) fn is_digit(c: char) -> (r: bool)
    ensures
        r == is_digit_char(c),
{
    let u = c as u32;
    48 <= u && u <= 57
}

/// Whether `c` is an ASCII letter.
pub(crate) fn is_alpha(c: char) -> (r: bool)
    ensures
        r == is_alpha_char(c),
{
    let u = c as u32;
    (65 <= u && u <= 90) || (97 <= u && u <= 122)
}

/// Whether `c` may continue an identifier.
fn is_ident(c: char) -> (r: bool)
    ensures
        r == is_ident_char(c),
{
    is_alpha(c) || is_digit(c) || c == '_'
}

/// Look an identifier-shaped word up in the keyword table.
fn keyword_lookup(text: &String) -> (k: TokenType)
    ensures
        k == spec_keyword_kind(text@),
{
    if *text == "def".to_owned() {
        TokenType::Def
    } else if *text == "if".to_owned() {
        TokenType::If
    } else if *text == "else".to_owned() {
        TokenType::Else
    } else if *text == "while".to_owned() {
        TokenType::While
    } else if *text == "return".to_owned() {
        TokenType::Return
    } else if *text == "break".to_owned() {
        TokenType::Break
    } else if *text == "print".to_owned() {
        TokenType::Print
    } else {
        TokenType::Identifier
    }
}

/// Rewrite the indentation stack for a line of width `width`, appending
/// the synthesized `Indent` / `Dedent` tokens; `false` means the width
/// landed between two open levels.
fn handle_indent(stack: &mut Vec<usize>, width: usize, tokens: &mut Vec<Token>) -> (ok: bool)
    requires
        old(stack)@.len() >= 1,
    ensures
        match spec_indent(old(stack)@, width as nat) {
            IndentOutcome::Tokens { toks, stack: st2 } => {
                &&& ok
                &&& final(stack)@ == st2
                &&& final(stack)@.len() >= 1
                &&& final(tokens).deep_view() == old(tokens).deep_view() + toks
            },
            IndentOutcome::Mismatch => !ok,
        },
    decreases old(stack)@.len(),
{
    let top = stack[stack.len() - 1];
    if width > top {
        let ghost dv = tokens.deep_view();
        stack.push(width);
        tokens.push(Token::new(TokenType::Indent, String::new()));
        proof {
            assert(tokens.deep_view() =~= dv + seq![synth_token(TokenType::Indent)]);
        }
        true
    } else if width == top {
        proof {
            assert(tokens.deep_view() =~= tokens.deep_view() + Seq::<TokenV>::empty());
        }
        true
    } else {
        handle_dedent(stack, width, tokens)
    }
}

/// Pop open levels, one `Dedent` each, until the width lands exactly on
/// one; `false` means it landed between two levels.
fn handle_dedent(stack: &mut Vec<usize>, width: usize, tokens: &mut Vec<Token>) -> (ok: bool)
    requires
        old(stack)@.len() >= 1,
    ensures
        match spec_dedent(old(stack)@, width as nat) {
            IndentOutcome::Tokens { toks, stack: st2 } => {
                &&& ok
                &&& final(stack)@ == st2
                &&& final(stack)@.len() >= 1
                &&& final(tokens).deep_view() == old(tokens).deep_view() + toks
            },
            IndentOutcome::Mismatch => !ok,
        },
    decreases old(stack)@.len(),
{
    let ghost dv = tokens.deep_view();
    let ghost st0 = stack@;
    stack.pop();
    tokens.push(Token::new(TokenType::Dedent, String::new()));
    proof {
        assert(stack@ =~= st0.drop_last());
        assert(tokens.deep_view() =~= dv + seq![synth_token(TokenType::Dedent)]);
    }
    if stack.len() == 0 {
        return false;
    }
    let top = stack[stack.len() - 1];
    if width == top {
        true
    } else if width > top {
        false
    } else {
        let ok = handle_dedent(stack, width, tokens);
        proof {
            match spec_dedent(st0.drop_last(), width as nat) {
                IndentOutcome::Tokens { toks, stack: rest } => {
                    assert(tokens.deep_view() =~= dv + (seq![
                        synth_token(TokenType::Dedent),
                    ] + toks));
                },
                IndentOutcome::Mismatch => {},
            }
        }
        ok
    }
}

/// Close every open block at the end of input and end the stream.
fn emit_closing(stack: &mut Vec<usize>, tokens: &mut Vec<Token>)
    requires
        old(stack)@.len() >= 1,
    ensures
        final(tokens).deep_view() == old(tokens).deep_view() + closing_tokens(old(stack)@),
    decreases old(stack)@.len(),
{
    if stack.len() <= 1 {
        let ghost dv = tokens.deep_view();
        tokens.push(Token::new(TokenType::EndMarker, String::new()));
        proof {
            assert(tokens.deep_view() =~= dv + seq![synth_token(TokenType::EndMarker)]);
        }
    } else {
        let ghost dv = tokens.deep_view();
        let ghost st0 = stack@;
        stack.pop();
        tokens.push(Token::new(TokenType::Dedent, String::new()));
        proof {
            assert(stack@ =~= st0.drop_last());
            assert(tokens.deep_view() =~= dv + seq![synth_token(TokenType::Dedent)]);
        }
        emit_closing(stack, tokens);
        proof {
            assert(tokens.deep_view() =~= dv + (seq![synth_token(TokenType::Dedent)]
                + closing_tokens(st0.drop_last())));
        }
    }
}

/// The lexer's working state: the source text, the scanning position (a
/// character index), whether the scanner stands at the start of a logical
/// line, the stack of open indentation widths, and the width measured for
/// the current line.
#[derive(Debug)]
pub struct Scanner {
    pub source: String,
    pub pos: usize,
    pub new_line: bool,
    pub indent_stack: Vec<usize>,
    pub current_indent: usize,
}

impl Scanner {
    /// The scanner's basic well-formedness: the position stays inside the
    /// source and the root indentation level stays open.
    pub open spec fn inv(&self) -> bool {
        &&& self.pos <= self.source@.len()
        &&& self.indent_stack@.len() >= 1
    }

    /// The source text this scanner reads.
    pub open spec fn src(&self) -> Seq<char> {
        self.source@
    }

    /// A scanner at the start of `source`, with only the root width open.
    pub fn new(source: String) -> (s: Scanner)
        ensures
            s.inv(),
            s.src() == source@,
            s.pos == 0,
            s.new_line == true,
            s.indent_stack@ == seq![0usize],
    {
        let mut indent_stack: Vec<usize> = Vec::new();
        indent_stack.push(0);
        proof {
            assert(indent_stack@ =~= seq![0usize]);
        }
        Scanner { source, pos: 0, new_line: true, indent_stack, current_indent: 0 }
    }

    /// The character at the scanning position, if any; the position does
    /// not move.
    pub fn peek_char(&self) -> (r: Option<char>)
        requires
            self.inv(),
        ensures
            if self.pos < self.src().len() {
                r == Some(self.src()[self.pos as int])
            } else {
                r is None
            },
    {
        if self.pos < self.source.as_str().unicode_len() {
            Some(self.source.as_str().get_char(self.pos))
        } else {
            None
        }
    }

    /// The character at the scanning position, if any, moving past it.
    pub fn next_char(&mut self) -> (r: Option<char>)
        requires
            old(self).inv(),
        ensures
            final(self).inv(),
            final(self).source == old(self).source,
            final(self).indent_stack == old(self).indent_stack,
            final(self).new_line == old(self).new_line,
            final(self).current_indent == old(self).current_indent,
            if old(self).pos < old(self).src().len() {
                r == Some(old(self).src()[old(self).pos as int]) && final(self).pos == old(
                    self,
                ).pos + 1
            } else {
                r is None && final(self).pos == old(self).pos
            },
    {
        if self.pos < self.source.as_str().unicode_len() {
            let c = self.source.as_str().get_char(self.pos);
            self.pos = self.pos + 1;
            Some(c)
        } else {
            None
        }
    }

    /// Move past non-newline whitespace, yielding how many characters
    /// were skipped.
    pub fn skip_whitespace(&mut self) -> (count: usize)
        requires
            old(self).inv(),
        ensures
            final(self).inv(),
            final(self).source == old(self).source,
            final(self).indent_stack == old(self).indent_stack,
            final(self).new_line == old(self).new_line,
            final(self).current_indent == old(self).current_indent,
            count == count_spaces(old(self).src(), old(self).pos as int),
            final(self).pos == old(self).pos + count,
    {
        let mut count: usize = 0;
        loop
            invariant
                old(self).inv(),
                self.source == old(self).source,
                self.indent_stack == old(self).indent_stack,
                self.new_line == old(self).new_line,
                self.current_indent == old(self).current_indent,
                self.pos == old(self).pos + count,
                self.pos <= self.src().len(),
                count_spaces(old(self).src(), old(self).pos as int) == count + count_spaces(
                    self.src(),
                    self.pos as int,
                ),
            ensures
                self.source == old(self).source,
                self.indent_stack == old(self).indent_stack,
                self.new_line == old(self).new_line,
                self.current_indent == old(self).current_indent,
                self.pos == old(self).pos + count,
                count_spaces(old(self).src(), old(self).pos as int) == count,
            decreases self.src().len() - self.pos,
        {
            match self.peek_char() {
                Some(c) => {
                    if is_space(c) {
                        self.next_char();
                        count = count + 1;
                    } else {
                        break ;
                    }
                },
                None => {
                    break ;
                },
            }
        }
        count
    }

    /// Take the longest run of characters from the scanning position that
    /// the predicate accepts, moving past it.
    pub fn take_while<F: Fn(char) -> bool>(&mut self, f: F) -> (r: String)
        requires
            old(self).inv(),
            forall|c: char| #[trigger] f.requires((c,)),
        ensures
            final(self).inv(),
            final(self).source == old(self).source,
            final(self).indent_stack == old(self).indent_stack,
            final(self).new_line == old(self).new_line,
            final(self).current_indent == old(self).current_indent,
            final(self).pos == old(self).pos + r@.len(),
            r@ == old(self).src().subrange(old(self).pos as int, old(self).pos + r@.len()),
            forall|i: int|
                0 <= i < r@.len() ==> #[trigger] f.ensures(
                    (old(self).src()[old(self).pos + i],),
                    true,
                ),
            old(self).pos + r@.len() < old(self).src().len() ==> f.ensures(
                (old(self).src()[old(self).pos + r@.len()],),
                false,
            ),
    {
        let start = self.pos;
        loop
            invariant_except_break
                old(self).inv(),
                self.source == old(self).source,
                self.indent_stack == old(self).indent_stack,
                self.new_line == old(self).new_line,
                self.current_indent == old(self).current_indent,
                start <= self.pos <= self.src().len(),
                forall|c: char| #[trigger] f.requires((c,)),
                forall|i: int|
                    start <= i < self.pos ==> f.ensures((self.src()[i],), true),
            ensures
                self.source == old(self).source,
                self.indent_stack == old(self).indent_stack,
                self.new_line == old(self).new_line,
                self.current_indent == old(self).current_indent,
                start <= self.pos <= self.src().len(),
                forall|i: int| start <= i < self.pos ==> f.ensures((self.src()[i],), true),
                self.pos < self.src().len() ==> f.ensures(
                    (self.src()[self.pos as int],),
                    false,
                ),
            decreases self.src().len() - self.pos,
        {
            match self.peek_char() {
                Some(c) => {
                    if f(c) {
                        self.next_char();
                    } else {
                        break ;
                    }
                },
                None => {
                    break ;
                },
            }
        }
        let text = self.source.as_str().substring_char(start, self.pos).to_owned();
        text
    }

    /// Take the longest identifier run from the scanning position,
    /// moving past it.
    pub fn take_name(&mut self) -> (r: String)
        requires
            old(self).inv(),
        ensures
            final(self).inv(),
            final(self).source == old(self).source,
            final(self).indent_stack == old(self).indent_stack,
            final(self).new_line == old(self).new_line,
            final(self).current_indent == old(self).current_indent,
            r@ == old(self).src().subrange(
                old(self).pos as int,
                old(self).pos + ident_run(old(self).src(), old(self).pos as int),
            ),
            final(self).pos == old(self).pos + ident_run(old(self).src(), old(self).pos as int),
    {
        let pred = (|c: char| -> (b: bool)
            ensures
                b == is_ident_char(c),
            { is_ident(c) });
        let r = self.take_while(pred);
        proof {
            let src = old(self).src();
            let p = old(self).pos as int;
            let n = r@.len() as int;
            assert forall|i: int| 0 <= i < n implies is_ident_char(#[trigger] src[p + i]) by {
                assert(pred.ensures((src[p + i],), true));
            }
            if p + n < src.len() {
                assert(pred.ensures((src[p + n],), false));
            }
            lemma_ident_run_exact(src, p, n);
        }
        r
    }

    /// Scan the whole remaining source into tokens: exactly the stream
    /// `spec_scan` names for the scanner's current state, or the first
    /// lexical error.
    #[verifier::rlimit(100)]
    pub fn scan_tokens(&mut self) -> (r: Result<Vec<Token>, LexError>)
        requires
            old(self).inv(),
        ensures
            final(self).src() == old(self).src(),
            match r {
                Ok(toks) => spec_scan(
                    old(self).src(),
                    old(self).pos as int,
                    old(self).indent_stack@,
                    old(self).new_line,
                ) == Ok::<Seq<TokenV>, LexError>(toks.deep_view()),
                Err(e) => spec_scan(
                    old(self).src(),
                    old(self).pos as int,
                    old(self).indent_stack@,
                    old(self).new_line,
                ) == Err::<Seq<TokenV>, LexError>(e),
            },
    {
        let ghost src = self.source@;
        let ghost goal = spec_scan(src, self.pos as int, self.indent_stack@, self.new_line);
        let mut tokens: Vec<Token> = Vec::new();
        #[verifier::loop_isolation(false)]
        loop
            invariant
                self.inv(),
                self.source@ == src,
                match spec_scan(src, self.pos as int, self.indent_stack@, self.new_line) {
                    Ok(rest) => goal == Ok::<Seq<TokenV>, LexError>(tokens.deep_view() + rest),
                    Err(e) => goal == Err::<Seq<TokenV>, LexError>(e),
                },
            decreases 2 * (src.len() - self.pos) + (if self.new_line { 1int } else { 0int }),
        {
            let ghost pos_e = self.pos as int;
            let ghost stack_e = self.indent_stack@;
            let ghost ls_e = self.new_line;
            let ghost dv = tokens.deep_view();
            let ghost step = spec_scan(src, pos_e, stack_e, ls_e);

            let w = self.skip_whitespace();
            let p = self.pos;
            if p >= self.source.as_str().unicode_len() {
                emit_closing(&mut self.indent_stack, &mut tokens);
                proof {
                    assert(step == Ok::<Seq<TokenV>, LexError>(closing_tokens(stack_e)));
                    assert(tokens.deep_view() =~= dv + closing_tokens(stack_e));
                }
                return Ok(tokens);
            }
            let c = self.source.as_str().get_char(p);
            if c == '\n' {
                tokens.push(Token::new(TokenType::NewLine, "\n".to_owned()));
                self.pos = p + 1;
                self.new_line = true;
                proof {
                    match spec_scan(src, self.pos as int, self.indent_stack@, true) {
                        Ok(ts) => {
                            assert(step == Ok::<Seq<TokenV>, LexError>(
                                seq![newline_token()] + ts,
                            ));
                            assert(tokens.deep_view() =~= dv.push(newline_token()));
                            assert(dv + (seq![newline_token()] + ts) =~= tokens.deep_view() + ts);
                        },
                        Err(e) => {},
                    }
                }
            } else if self.new_line {
                self.current_indent = w;
                let ok = handle_indent(&mut self.indent_stack, w, &mut tokens);
                if !ok {
                    proof {
                        assert(step == Err::<Seq<TokenV>, LexError>(
                            LexError {
                                kind: LexErrorKind::InconsistentDedent,
                                ch: c,
                                position: p,
                            },
                        ));
                    }
                    return Err(
                        LexError { kind: LexErrorKind::InconsistentDedent, ch: c, position: p },
                    );
                }
                self.new_line = false;
                proof {
                    match spec_indent(stack_e, w as nat) {
                        IndentOutcome::Tokens { toks, stack: st2 } => {
                            match spec_scan(src, p as int, st2, false) {
                                Ok(ts) => {
                                    assert(step == Ok::<Seq<TokenV>, LexError>(toks + ts));
                                    assert(dv + (toks + ts) =~= (dv + toks) + ts);
                                },
                                Err(e) => {},
                            }
                        },
                        IndentOutcome::Mismatch => {},
                    }
                }
            } else if is_digit(c) {
                let pred = (|ch: char| -> (b: bool)
                    ensures
                        b == is_digit_char(ch),
                    { is_digit(ch) });
                let text = self.take_while(pred);
                proof {
                    let n = text@.len() as int;
                    assert forall|i: int| 0 <= i < n implies is_digit_char(
                        #[trigger] src[p + i],
                    ) by {
                        assert(pred.ensures((src[p + i],), true));
                    }
                    if p + n < src.len() {
                        assert(pred.ensures((src[p + n],), false));
                    }
                    lemma_digit_run_exact(src, p as int, n);
                }
                let ghost tokv = TokenV {
                    kind: TokenType::Int,
                    text: src.subrange(p as int, p + digit_run(src, p as int)),
                };
                tokens.push(Token::new(TokenType::Int, text));
                proof {
                    match spec_scan(src, self.pos as int, self.indent_stack@, false) {
                        Ok(ts) => {
                            assert(step == Ok::<Seq<TokenV>, LexError>(seq![tokv] + ts));
                            assert(tokens.deep_view() =~= dv.push(tokv));
                            assert(dv + (seq![tokv] + ts) =~= tokens.deep_view() + ts);
                        },
                        Err(e) => {},
                    }
                }
            } else if is_alpha(c) {
                let text = self.take_name();
                let kind = keyword_lookup(&text);
                let ghost tokv = TokenV {
                    kind: spec_keyword_kind(src.subrange(p as int, p + ident_run(src, p as int))),
                    text: src.subrange(p as int, p + ident_run(src, p as int)),
                };
                tokens.push(Token::new(kind, text));
                proof {
                    match spec_scan(src, self.pos as int, self.indent_stack@, false) {
                        Ok(ts) => {
                            assert(step == Ok::<Seq<TokenV>, LexError>(seq![tokv] + ts));
                            assert(tokens.deep_view() =~= dv.push(tokv));
                            assert(dv + (seq![tokv] + ts) =~= tokens.deep_view() + ts);
                        },
                        Err(e) => {},
                    }
                }
            } else {
                let len = self.source.as_str().unicode_len();
                let two_eq = p + 1 < len && self.source.as_str().get_char(p + 1) == '=';
                let pushed: bool;
                if c == '=' && two_eq {
                    tokens.push(Token::new(TokenType::EqualEqual, "==".to_owned()));
                    self.pos = p + 2;
                    pushed = true;
                } else if c == '!' {
                    if two_eq {
                        tokens.push(Token::new(TokenType::BangEqual, "!=".to_owned()));
                        self.pos = p + 2;
                        pushed = true;
                    } else {
                        proof {
                            assert(step == Err::<Seq<TokenV>, LexError>(
                                LexError {
                                    kind: LexErrorKind::UnrecognizedChar,
                                    ch: c,
                                    position: p,
                                },
                            ));
                        }
                        return Err(
                            LexError { kind: LexErrorKind::UnrecognizedChar, ch: c, position: p },
                        );
                    }
                } else if c == '+' {
                    tokens.push(Token::new(TokenType::Plus, "+".to_owned()));
                    self.pos = p + 1;
                    pushed = true;
                } else if c == '-' {
                    tokens.push(Token::new(TokenType::Minus, "-".to_owned()));
                    self.pos = p + 1;
                    pushed = true;
                } else if c == '*' {
                    tokens.push(Token::new(TokenType::Mul, "*".to_owned()));
                    self.pos = p + 1;
                    pushed = true;
                } else if c == '/' {
                    tokens.push(Token::new(TokenType::Div, "/".to_owned()));
                    self.pos = p + 1;
                    pushed = true;
                } else if c == ':' {
                    tokens.push(Token::new(TokenType::Colon, ":".to_owned()));
                    self.pos = p + 1;
                    pushed = true;
                } else if c == ',' {
                    tokens.push(Token::new(TokenType::Comma, ",".to_owned()));
                    self.pos = p + 1;
                    pushed = true;
                } else if c == '(' {
                    tokens.push(Token::new(TokenType::LParen, "(".to_owned()));
                    self.pos = p + 1;
                    pushed = true;
                } else if c == ')' {
                    tokens.push(Token::new(TokenType::RParen, ")".to_owned()));
                    self.pos = p + 1;
                    pushed = true;
                } else if c == '<' {
                    tokens.push(Token::new(TokenType::LessThan, "<".to_owned()));
                    self.pos = p + 1;
                    pushed = true;
                } else if c == '=' {
                    tokens.push(Token::new(TokenType::Assign, "=".to_owned()));
                    self.pos = p + 1;
                    pushed = true;
                } else {
                    proof {
                        assert(step == Err::<Seq<TokenV>, LexError>(
                            LexError { kind: LexErrorKind::UnrecognizedChar, ch: c, position: p },
                        ));
                    }
                    return Err(
                        LexError { kind: LexErrorKind::UnrecognizedChar, ch: c, position: p },
                    );
                }
                proof {
                    if pushed {
                        let tokv = tokens.deep_view().last();
                        match spec_scan(src, self.pos as int, self.indent_stack@, false) {
                            Ok(ts) => {
                                assert(step == Ok::<Seq<TokenV>, LexError>(seq![tokv] + ts));
                                assert(tokens.deep_view() =~= dv.push(tokv));
                                assert(dv + (seq![tokv] + ts) =~= tokens.deep_view() + ts);
                            },
                            Err(e) => {},
                        }
                    }
                }
            }
        }
    }
}

/// How many tokens of kind `k` a stream holds.
pub open spec fn count_kind(ts: Seq<TokenV>, k: TokenType) -> int
    decreases ts.len(),
{
    if ts.len() == 0 {
        0
    } else {
        (if ts[0].kind == k {
            1int
        } else {
            0int
        }) + count_kind(ts.drop_first(), k)
    }
}

/// The count of a one-token stream.
proof fn lemma_count_kind_single(t: TokenV, k: TokenType)
    ensures
        count_kind(seq![t], k) == if t.kind == k {
            1int
        } else {
            0int
        },
{
    assert(seq![t].drop_first() =~= Seq::<TokenV>::empty());
    assert(count_kind(Seq::<TokenV>::empty(), k) == 0);
}

/// Counting tokens distributes over concatenation.
proof fn lemma_count_kind_concat(a: Seq<TokenV>, b: Seq<TokenV>, k: TokenType)
    ensures
        count_kind(a + b, k) == count_kind(a, k) + count_kind(b, k),
    decreases a.len(),
{
    if a.len() == 0 {
        assert(a + b =~= b);
    } else {
        lemma_count_kind_concat(a.drop_first(), b, k);
        assert((a + b).drop_first() =~= a.drop_first() + b);
    }
}

/// The closing tokens hold one `Dedent` per open level and no `Indent`.
proof fn lemma_closing_counts(stack: Seq<usize>)
    requires
        stack.len() >= 1,
    ensures
        count_kind(closing_tokens(stack), TokenType::Dedent) == stack.len() - 1,
        count_kind(closing_tokens(stack), TokenType::Indent) == 0,
    decreases stack.len(),
{
    if stack.len() <= 1 {
        lemma_count_kind_single(synth_token(TokenType::EndMarker), TokenType::Dedent);
        lemma_count_kind_single(synth_token(TokenType::EndMarker), TokenType::Indent);
    } else {
        lemma_closing_counts(stack.drop_last());
        lemma_count_kind_concat(
            seq![synth_token(TokenType::Dedent)],
            closing_tokens(stack.drop_last()),
            TokenType::Dedent,
        );
        lemma_count_kind_concat(
            seq![synth_token(TokenType::Dedent)],
            closing_tokens(stack.drop_last()),
            TokenType::Indent,
        );
        lemma_count_kind_single(synth_token(TokenType::Dedent), TokenType::Dedent);
        lemma_count_kind_single(synth_token(TokenType::Dedent), TokenType::Indent);
    }
}

/// The tokens a line's indentation step emits change the count balance by
/// exactly the change in the stack of open levels.
proof fn lemma_indent_counts(stack: Seq<usize>, width: nat)
    requires
        stack.len() >= 1,
    ensures
        spec_indent(stack, width) matches IndentOutcome::Tokens { toks, stack: st2 } ==> {
            &&& st2.len() >= 1
            &&& count_kind(toks, TokenType::Indent) - count_kind(toks, TokenType::Dedent)
                == st2.len() - stack.len()
        },
    decreases stack.len(),
{
    if width > stack.last() {
        lemma_count_kind_single(synth_token(TokenType::Indent), TokenType::Indent);
        lemma_count_kind_single(synth_token(TokenType::Indent), TokenType::Dedent);
    } else if width == stack.last() {
        assert(count_kind(Seq::<TokenV>::empty(), TokenType::Indent) == 0);
        assert(count_kind(Seq::<TokenV>::empty(), TokenType::Dedent) == 0);
    } else {
        lemma_dedent_counts(stack, width);
    }
}

/// The tokens a dedent run emits change the count balance by exactly the
/// number of popped levels.
proof fn lemma_dedent_counts(stack: Seq<usize>, width: nat)
    requires
        stack.len() >= 1,
    ensures
        spec_dedent(stack, width) matches IndentOutcome::Tokens { toks, stack: st2 } ==> {
            &&& st2.len() >= 1
            &&& count_kind(toks, TokenType::Indent) - count_kind(toks, TokenType::Dedent)
                == st2.len() - stack.len()
        },
    decreases stack.len(),
{
    let popped = stack.drop_last();
    if popped.len() == 0 {
    } else if width == popped.last() {
        lemma_count_kind_single(synth_token(TokenType::Dedent), TokenType::Dedent);
        lemma_count_kind_single(synth_token(TokenType::Dedent), TokenType::Indent);
    } else if width > popped.last() {
    } else {
        lemma_dedent_counts(popped, width);
        match spec_dedent(popped, width) {
            IndentOutcome::Tokens { toks, stack: rest } => {
                lemma_count_kind_concat(
                    seq![synth_token(TokenType::Dedent)],
                    toks,
                    TokenType::Dedent,
                );
                lemma_count_kind_concat(
                    seq![synth_token(TokenType::Dedent)],
                    toks,
                    TokenType::Indent,
                );
                lemma_count_kind_single(synth_token(TokenType::Dedent), TokenType::Dedent);
                lemma_count_kind_single(synth_token(TokenType::Dedent), TokenType::Indent);
            },
            IndentOutcome::Mismatch => {},
        }
    }
}

/// Any successfully scanned remainder closes exactly the levels that were
/// open when scanning started, beyond those it opens itself.
proof fn lemma_scan_balance(src: Seq<char>, pos: int, stack: Seq<usize>, line_start: bool)
    requires
        stack.len() >= 1,
    ensures
        spec_scan(src, pos, stack, line_start) matches Ok(ts) ==> count_kind(
            ts,
            TokenType::Dedent,
        ) == count_kind(ts, TokenType::Indent) + stack.len() - 1,
    decreases src.len() - pos, (if line_start { 1int } else { 0int }),
{
    if pos < 0 || pos > src.len() {
        lemma_closing_counts(stack);
    } else {
        lemma_count_spaces_bound(src, pos);
        let w = count_spaces(src, pos);
        let p = pos + w;
        if p >= src.len() {
            lemma_closing_counts(stack);
        } else if src[p] == '\n' {
            lemma_scan_balance(src, p + 1, stack, true);
            match spec_scan(src, p + 1, stack, true) {
                Ok(ts) => {
                    lemma_count_kind_concat(seq![newline_token()], ts, TokenType::Dedent);
                    lemma_count_kind_concat(seq![newline_token()], ts, TokenType::Indent);
                    lemma_count_kind_single(newline_token(), TokenType::Dedent);
                    lemma_count_kind_single(newline_token(), TokenType::Indent);
                },
                Err(e) => {},
            }
        } else if line_start {
            lemma_indent_counts(stack, w);
            match spec_indent(stack, w) {
                IndentOutcome::Tokens { toks, stack: st2 } => {
                    lemma_scan_balance(src, p, st2, false);
                    match spec_scan(src, p, st2, false) {
                        Ok(ts) => {
                            lemma_count_kind_concat(toks, ts, TokenType::Dedent);
                            lemma_count_kind_concat(toks, ts, TokenType::Indent);
                        },
                        Err(e) => {},
                    }
                },
                IndentOutcome::Mismatch => {},
            }
        } else {
            let c = src[p];
            if is_digit_char(c) {
                lemma_digit_run_bound(src, p);
                let n = digit_run(src, p);
                let tok = TokenV { kind: TokenType::Int, text: src.subrange(p, p + n) };
                lemma_scan_balance(src, p + n, stack, false);
                lemma_scan_step_count(tok, src, p + n, stack);
            } else if is_alpha_char(c) {
                lemma_ident_run_bound(src, p);
                let n = ident_run(src, p);
                let text = src.subrange(p, p + n);
                let tok = TokenV { kind: spec_keyword_kind(text), text };
                lemma_scan_balance(src, p + n, stack, false);
                lemma_scan_step_count(tok, src, p + n, stack);
            } else if c == '=' && p + 1 < src.len() && src[p + 1] == '=' {
                lemma_scan_balance(src, p + 2, stack, false);
                lemma_scan_step_count(
                    TokenV { kind: TokenType::EqualEqual, text: "=="@ },
                    src,
                    p + 2,
                    stack,
                );
            } else if c == '!' && p + 1 < src.len() && src[p + 1] == '=' {
                lemma_scan_balance(src, p + 2, stack, false);
                lemma_scan_step_count(
                    TokenV { kind: TokenType::BangEqual, text: "!="@ },
                    src,
                    p + 2,
                    stack,
                );
            } else {
                lemma_scan_balance(src, p + 1, stack, false);
                match spec_scan(src, p + 1, stack, false) {
                    Ok(ts) => {
                        match spec_scan(src, pos, stack, line_start) {
                            Ok(whole) => {
                                let tok = whole[0];
                                assert(whole =~= seq![tok] + ts);
                                lemma_scan_step_count(tok, src, p + 1, stack);
                            },
                            Err(e) => {},
                        }
                    },
                    Err(e) => {},
                }
            }
        }
    }
}

/// One ordinary token changes no `Indent` / `Dedent` count, provided it is
/// neither of those kinds.
proof fn lemma_scan_step_count(tok: TokenV, src: Seq<char>, p2: int, stack: Seq<usize>)
    requires
        tok.kind != TokenType::Indent,
        tok.kind != TokenType::Dedent,
    ensures
        spec_scan(src, p2, stack, false) matches Ok(ts) ==> {
            &&& count_kind(seq![tok] + ts, TokenType::Dedent) == count_kind(ts, TokenType::Dedent)
            &&& count_kind(seq![tok] + ts, TokenType::Indent) == count_kind(ts, TokenType::Indent)
        },
{
    match spec_scan(src, p2, stack, false) {
        Ok(ts) => {
            lemma_count_kind_concat(seq![tok], ts, TokenType::Dedent);
            lemma_count_kind_concat(seq![tok], ts, TokenType::Indent);
            lemma_count_kind_single(tok, TokenType::Dedent);
            lemma_count_kind_single(tok, TokenType::Indent);
        },
        Err(e) => {},
    }
}

/// Indentation round-trip: in the token stream of any source that lexes
/// successfully — every block's width strictly exceeding its enclosing
/// width, every dedent landing exactly on a prior width — the number of
/// `Indent` tokens equals the number of `Dedent` tokens.
pub proof fn lemma_indent_dedent_balance(src: Seq<char>)
    ensures
        spec_tokenize(src) matches Ok(ts) ==> count_kind(ts, TokenType::Indent) == count_kind(
            ts,
            TokenType::Dedent,
        ),
{
    lemma_scan_balance(src, 0, seq![0usize], true);
}

/// Prepending tokens that are not `EndMarker` keeps a stream well-formed.
proof fn lemma_wf_prepend(toks: Seq<TokenV>, rest: Seq<TokenV>)
    requires
        crate::token::tokens_wf(rest),
        forall|i: int| 0 <= i < toks.len() ==> (#[trigger] toks[i].kind) != TokenType::EndMarker,
    ensures
        crate::token::tokens_wf(toks + rest),
{
    let whole = toks + rest;
    assert(whole.last() == rest.last());
    assert forall|i: int| 0 <= i < whole.len() - 1 implies (#[trigger] whole[i].kind)
        != TokenType::EndMarker by {
        if i >= toks.len() {
            assert(whole[i] == rest[i - toks.len()]);
        } else {
            assert(whole[i] == toks[i]);
        }
    }
}

/// The closing tokens form a well-formed stream on their own.
proof fn lemma_closing_wf(stack: Seq<usize>)
    ensures
        crate::token::tokens_wf(closing_tokens(stack)),
    decreases stack.len(),
{
    if stack.len() <= 1 {
        assert(closing_tokens(stack) == seq![synth_token(TokenType::EndMarker)]);
    } else {
        lemma_closing_wf(stack.drop_last());
        lemma_wf_prepend(
            seq![synth_token(TokenType::Dedent)],
            closing_tokens(stack.drop_last()),
        );
    }
}

/// A dedent run emits only `Dedent` tokens.
proof fn lemma_dedent_kinds(stack: Seq<usize>, width: nat)
    ensures
        spec_dedent(stack, width) matches IndentOutcome::Tokens { toks, .. } ==> forall|i: int|
            0 <= i < toks.len() ==> (#[trigger] toks[i].kind) == TokenType::Dedent,
    decreases stack.len(),
{
    if stack.len() > 0 {
        let popped = stack.drop_last();
        if popped.len() > 0 && width < popped.last() {
            lemma_dedent_kinds(popped, width);
            match spec_dedent(popped, width) {
                IndentOutcome::Tokens { toks, .. } => {
                    let whole = seq![synth_token(TokenType::Dedent)] + toks;
                    assert forall|i: int| 0 <= i < whole.len() implies (#[trigger] whole[i].kind)
                        == TokenType::Dedent by {
                        if i > 0 {
                            assert(whole[i] == toks[i - 1]);
                        }
                    }
                },
                IndentOutcome::Mismatch => {},
            }
        }
    }
}

/// Whatever the scanner state, a successful scan yields a well-formed
/// stream: it ends with exactly one `EndMarker`.
pub proof fn lemma_scan_wf(src: Seq<char>, pos: int, stack: Seq<usize>, line_start: bool)
    requires
        stack.len() >= 1,
    ensures
        spec_scan(src, pos, stack, line_start) matches Ok(ts) ==> crate::token::tokens_wf(ts),
    decreases src.len() - pos, (if line_start { 1int } else { 0int }),
{
    if pos < 0 || pos > src.len() {
        lemma_closing_wf(stack);
    } else {
        lemma_count_spaces_bound(src, pos);
        let w = count_spaces(src, pos);
        let p = pos + w;
        if p >= src.len() {
            lemma_closing_wf(stack);
        } else if src[p] == '\n' {
            lemma_scan_wf(src, p + 1, stack, true);
            match spec_scan(src, p + 1, stack, true) {
                Ok(ts) => {
                    lemma_wf_prepend(seq![newline_token()], ts);
                },
                Err(e) => {},
            }
        } else if line_start {
            lemma_indent_counts(stack, w);
            match spec_indent(stack, w) {
                IndentOutcome::Tokens { toks, stack: st2 } => {
                    lemma_scan_wf(src, p, st2, false);
                    match spec_scan(src, p, st2, false) {
                        Ok(ts) => {
                            assert forall|i: int| 0 <= i < toks.len() implies (
                            #[trigger] toks[i].kind) != TokenType::EndMarker by {
                                if w > stack.last() {
                                } else if w == stack.last() {
                                } else {
                                    lemma_dedent_kinds(stack, w);
                                }
                            }
                            lemma_wf_prepend(toks, ts);
                        },
                        Err(e) => {},
                    }
                },
                IndentOutcome::Mismatch => {},
            }
        } else {
            let c = src[p];
            if is_digit_char(c) {
                lemma_digit_run_bound(src, p);
                let n = digit_run(src, p);
                lemma_scan_wf(src, p + n, stack, false);
                match spec_scan(src, p + n, stack, false) {
                    Ok(ts) => {
                        lemma_wf_prepend(
                            seq![TokenV { kind: TokenType::Int, text: src.subrange(p, p + n) }],
                            ts,
                        );
                    },
                    Err(e) => {},
                }
            } else if is_alpha_char(c) {
                lemma_ident_run_bound(src, p);
                let n = ident_run(src, p);
                let text = src.subrange(p, p + n);
                lemma_scan_wf(src, p + n, stack, false);
                match spec_scan(src, p + n, stack, false) {
                    Ok(ts) => {
                        lemma_wf_prepend(seq![TokenV { kind: spec_keyword_kind(text), text }], ts);
                    },
                    Err(e) => {},
                }
            } else if c == '=' && p + 1 < src.len() && src[p + 1] == '=' {
                lemma_scan_wf(src, p + 2, stack, false);
                match spec_scan(src, p + 2, stack, false) {
                    Ok(ts) => {
                        lemma_wf_prepend(
                            seq![TokenV { kind: TokenType::EqualEqual, text: "=="@ }],
                            ts,
                        );
                    },
                    Err(e) => {},
                }
            } else if c == '!' && p + 1 < src.len() && src[p + 1] == '=' {
                lemma_scan_wf(src, p + 2, stack, false);
                match spec_scan(src, p + 2, stack, false) {
                    Ok(ts) => {
                        lemma_wf_prepend(
                            seq![TokenV { kind: TokenType::BangEqual, text: "!="@ }],
                            ts,
                        );
                    },
                    Err(e) => {},
                }
            } else {
                lemma_scan_wf(src, p + 1, stack, false);
                match spec_scan(src, p + 1, stack, false) {
                    Ok(ts) => {
                        match spec_scan(src, pos, stack, line_start) {
                            Ok(whole) => {
                                assert(whole =~= seq![whole[0]] + ts);
                                lemma_wf_prepend(seq![whole[0]], ts);
                            },
                            Err(e) => {},
                        }
                    },
                    Err(e) => {},
                }
            }
        }
    }
}

/// A successful `spec_tokenize` always yields a well-formed stream, so
/// the parser's precondition holds of anything the lexer produced.
pub proof fn lemma_tokenize_wf(src: Seq<char>)
    ensures
        spec_tokenize(src) matches Ok(ts) ==> crate::token::tokens_wf(ts),
{
    lemma_scan_wf(src, 0, seq![0usize], true);
}

/// Convert raw source text into its token stream, or fail on the first
/// unrecognized character or inconsistent dedent.
pub fn tokenize(source: &str) -> (r: Result<Vec<Token>, LexError>)
    ensures
        match r {
            Ok(toks) => spec_tokenize(source@) == Ok::<Seq<TokenV>, LexError>(toks.deep_view()),
            Err(e) => spec_tokenize(source@) == Err::<Seq<TokenV>, LexError>(e),
        },
{
    let mut scanner = Scanner::new(source.to_owned());
    scanner.scan_tokens()
}

} // verus!

