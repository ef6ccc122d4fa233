//! A second, finer-grained lexer over the full operator and keyword set
//! of an indentation-free token stream: it hands out one token at a time,
//! each carrying a reference into the source text rather than a copy.
//! Identifier and number runs are matched through the `regex` crate,
//! behind trusted wrappers whose contracts state the exact prefix length
//! those anchored patterns match.

use vstd::prelude::*;

use crate::scanner::{digit_run, ident_run, is_alpha_char, is_digit_char, is_space_char,
    LexError, LexErrorKind};

verus! {

/// The full token vocabulary: every keyword, every operator and
/// delimiter, and the structural kinds.
#[derive(Debug, PartialEq, Eq, Hash, Clone, Copy, Structural)]
pub enum TokenType {
    And,
    As,
    Assert,
    Break,
    Class,
    Continue,
    Def,
    Del,
    Elif,
    Else,
    Except,
    False,
    Finally,
    For,
    From,
    Global,
    If,
    Import,
    In,
    Is,
    Lambda,
    NoneKw,
    Nonlocal,
    Not,
    Or,
    Pass,
    Raise,
    Return,
    True,
    Try,
    While,
    With,
    Yield,
    EndMarker,
    Name,
    Number,
    Newline,
    Lpar,
    Rpar,
    Lsqb,
    Rsqb,
    Colon,
    Comma,
    Semi,
    Plus,
    Minus,
    Star,
    Slash,
    Vbar,
    Amper,
    Less,
    Greater,
    Equal,
    Dot,
    Percent,
    Lbrace,
    Rbrace,
    EqEqual,
    NotEqual,
    LessEqual,
    GreaterEqual,
    Tilde,
    Circumflex,
    LeftShift,
    RightShift,
    DoubleStar,
    DoubleSlash,
    PlusEqual,
    MinusEqual,
    StarEqual,
    SlashEqual,
    PercentEqual,
    AmperEqual,
    VbarEqual,
    CircumflexEqual,
    LeftShiftEqual,
    RightShiftEqual,
    DoubleStarEqual,
    DoubleSlashEqual,
    At,
    AtEqual,
    Rarrow,
    Ellipsis,
    ColonEqual,
    Comment,
}

/// A span of the source text: the text itself, the line it lies on, and
/// its character range.
#[derive(Debug)]
pub struct SourceRef<'source> {
    pub source: &'source str,
    pub line: usize,
    pub start: usize,
    pub end: usize,
}

impl<'source> SourceRef<'source> {
    /// A span's basic well-formedness: its range lies inside its source.
    pub open spec fn wf(&self) -> bool {
        self.start <= self.end <= self.source@.len()
    }

    /// Build a span from its source, line and character range.
    pub fn new(source: &'source str, line: usize, start: usize, end: usize) -> (r: SourceRef<
        'source,
    >)
        ensures
            r.source@ == source@,
            r.line == line,
            r.start == start,
            r.end == end,
    {
        SourceRef { source, line, start, end }
    }

    /// The text this span covers.
    pub fn value(&self) -> (r: &str)
        requires
            self.wf(),
        ensures
            r@ == self.source@.subrange(self.start as int, self.end as int),
    {
        self.source.substring_char(self.start, self.end)
    }
}

/// One token: its kind, and the span of source text it was matched from.
#[derive(Debug)]
pub struct Token<'source> {
    pub token_type: TokenType,
    pub source_ref: SourceRef<'source>,
}

impl<'source> Token<'source> {
    /// Build a token over the given span.
    pub fn new(token_type: TokenType, start: usize, end: usize, line: usize, source: &str) -> (r:
        Token<'_>)
        ensures
            r.token_type == token_type,
            r.source_ref.source@ == source@,
            r.source_ref.line == line,
            r.source_ref.start == start,
            r.source_ref.end == end,
    {
        Token { token_type, source_ref: SourceRef::new(source, line, start, end) }
    }

    /// The empty token that ends the stream.
    pub fn endmarker(start: usize, line: usize, source: &str) -> (r: Token<'_>)
        ensures
            r.token_type == TokenType::EndMarker,
            r.source_ref.source@ == source@,
            r.source_ref.line == line,
            r.source_ref.start == start,
            r.source_ref.end == start,
    {
        Token { token_type: TokenType::EndMarker, source_ref: SourceRef::new(source, line, start, start) }
    }

    /// The text this token was matched from.
    pub fn value(&self) -> (r: &str)
        requires
            self.source_ref.wf(),
        ensures
            r@ == self.source_ref.source@.subrange(
                self.source_ref.start as int,
                self.source_ref.end as int,
            ),
    {
        self.source_ref.value()
    }

    /// The line this token lies on.
    pub fn line(&self) -> (r: usize)
        ensures
            r == self.source_ref.line,
    {
        self.source_ref.line
    }

    /// The character position this token starts at.
    pub fn start(&self) -> (r: usize)
        ensures
            r == self.source_ref.start,
    {
        self.source_ref.start
    }

    /// The character position just past this token.
    pub fn end(&self) -> (r: usize)
        ensures
            r == self.source_ref.end,
    {
        self.source_ref.end
    }

    /// How many characters this token covers.
    pub fn length(&self) -> (r: usize)
        requires
            self.source_ref.start <= self.source_ref.end,
        ensures
            r == self.source_ref.end - self.source_ref.start,
    {
        self.end() - self.start()
    }
}

/// A character that may start an identifier: a letter or an underscore.
pub open spec fn is_py_ident_start(c: char) -> bool {
    is_alpha_char(c) || c == '_'
}

/// The length of the identifier prefix of `s`: one starting letter or
/// underscore, then any run of letters, digits and underscores.
pub open spec fn py_ident_len(s: Seq<char>) -> nat {
    if s.len() > 0 && is_py_ident_start(s[0]) {
        (1 + ident_run(s, 1)) as nat
    } else {
        0
    }
}

/// The length of the digit prefix of `s`.
pub open spec fn py_digit_len(s: Seq<char>) -> nat {
    digit_run(s, 0)
}

/// Relies on `regex::Regex::find` with the anchored pattern
/// `^[a-zA-Z_][a-zA-Z0-9_]*`: the greedy class match is the longest
/// identifier prefix, and since it is all ASCII its byte length equals
/// its character length; no match yields length zero.
#[verifier::external_body]
fn regex_ident_prefix_len(s: &str) -> (r: usize)
    ensures
        r as nat == py_ident_len(s@),
{
    let pattern = regex::Regex::new("^[a-zA-Z_][a-zA-Z0-9_]*").unwrap();
    match pattern.find(s) {
        Some(m) => m.end(),
        None => 0,
    }
}

/// Relies on `regex::Regex::find` with the anchored pattern `^[0-9]+`:
/// the greedy class match is the longest digit prefix, all ASCII, so its
/// byte length equals its character length; no match yields length zero.
#[verifier::external_body]
fn regex_digit_prefix_len(s: &str) -> (r: usize)
    ensures
        r as nat == py_digit_len(s@),
{
    let pattern = regex::Regex::new("^[0-9]+").unwrap();
    match pattern.find(s) {
        Some(m) => m.end(),
        None => 0,
    }
}

/// The kind an identifier-shaped word lexes to: a keyword of the fixed
/// table, or `Name`.
pub open spec fn py_keyword_kind(text: Seq<char>) -> TokenType {
    if text == "and"@ {
        TokenType::And
    } else if text == "as"@ {
        TokenType::As
    } else if text == "assert"@ {
        TokenType::Assert
    } else if text == "break"@ {
        TokenType::Break
    } else if text == "class"@ {
        TokenType::Class
    } else if text == "continue"@ {
        TokenType::Continue
    } else if text == "def"@ {
        TokenType::Def
    } else if text == "del"@ {
        TokenType::Del
    } else if text == "elif"@ {
        TokenType::Elif
    } else if text == "else"@ {
        TokenType::Else
    } else if text == "except"@ {
        TokenType::Except
    } else if text == "False"@ {
        TokenType::False
    } else if text == "finally"@ {
        TokenType::Finally
    } else if text == "for"@ {
        TokenType::For
    } else if text == "from"@ {
        TokenType::From
    } else if text == "global"@ {
        TokenType::Global
    } else if text == "if"@ {
        TokenType::If
    } else if text == "import"@ {
        TokenType::Import
    } else if text == "in"@ {
        TokenType::In
    } else if text == "is"@ {
        TokenType::Is
    } else if text == "lambda"@ {
        TokenType::Lambda
    } else if text == "None"@ {
        TokenType::NoneKw
    } else if text == "nonlocal"@ {
        TokenType::Nonlocal
    } else if text == "not"@ {
        TokenType::Not
    } else if text == "or"@ {
        TokenType::Or
    } else if text == "pass"@ {
        TokenType::Pass
    } else if text == "raise"@ {
        TokenType::Raise
    } else if text == "return"@ {
        TokenType::Return
    } else if text == "True"@ {
        TokenType::True
    } else if text == "try"@ {
        TokenType::Try
    } else if text == "while"@ {
        TokenType::While
    } else if text == "with"@ {
        TokenType::With
    } else if text == "yield"@ {
        TokenType::Yield
    } else {
        TokenType::Name
    }
}

/// Whether `c` begins an operator or delimiter.
pub open spec fn is_py_op_char(c: char) -> bool {
    c == '|' || c == '&' || c == '/' || c == '+' || c == '-' || c == '*' || c == '<' || c == '>'
        || c == '=' || c == '.' || c == '%' || c == '{' || c == '}' || c == '~' || c == '^'
        || c == '@' || c == ',' || c == ':' || c == ';' || c == '(' || c == ')' || c == '['
        || c == ']'
}

/// The operator or delimiter starting at `cur`, longest match first:
/// its kind and how many characters it covers.
pub open spec fn spec_py_operator(src: Seq<char>, cur: int) -> (TokenType, int)
    recommends
        0 <= cur < src.len(),
        is_py_op_char(src[cur]),
{
    let c = src[cur];
    let c2 = if cur + 1 < src.len() {
        src[cur + 1]
    } else {
        ' '
    };
    let c3 = if cur + 2 < src.len() {
        src[cur + 2]
    } else {
        ' '
    };
    if c == '<' && c2 == '<' && c3 == '=' {
        (TokenType::LeftShiftEqual, 3)
    } else if c == '>' && c2 == '>' && c3 == '=' {
        (TokenType::RightShiftEqual, 3)
    } else if c == '*' && c2 == '*' && c3 == '=' {
        (TokenType::DoubleStarEqual, 3)
    } else if c == '/' && c2 == '/' && c3 == '=' {
        (TokenType::DoubleSlashEqual, 3)
    } else if c == '.' && c2 == '.' && c3 == '.' {
        (TokenType::Ellipsis, 3)
    } else if c == '*' && c2 == '*' {
        (TokenType::DoubleStar, 2)
    } else if c == '/' && c2 == '/' {
        (TokenType::DoubleSlash, 2)
    } else if c == '<' && c2 == '<' {
        (TokenType::LeftShift, 2)
    } else if c == '>' && c2 == '>' {
        (TokenType::RightShift, 2)
    } else if c == '+' && c2 == '=' {
        (TokenType::PlusEqual, 2)
    } else if c == '-' && c2 == '=' {
        (TokenType::MinusEqual, 2)
    } else if c == '*' && c2 == '=' {
        (TokenType::StarEqual, 2)
    } else if c == '/' && c2 == '=' {
        (TokenType::SlashEqual, 2)
    } else if c == '%' && c2 == '=' {
        (TokenType::PercentEqual, 2)
    } else if c == '&' && c2 == '=' {
        (TokenType::AmperEqual, 2)
    } else if c == '|' && c2 == '=' {
        (TokenType::VbarEqual, 2)
    } else if c == '^' && c2 == '=' {
        (TokenType::CircumflexEqual, 2)
    } else if c == '-' && c2 == '>' {
        (TokenType::Rarrow, 2)
    } else if c == '=' && c2 == '=' {
        (TokenType::EqEqual, 2)
    } else if c == '<' && c2 == '=' {
        (TokenType::LessEqual, 2)
    } else if c == '>' && c2 == '=' {
        (TokenType::GreaterEqual, 2)
    } else if c == ':' && c2 == '=' {
        (TokenType::ColonEqual, 2)
    } else if c == '@' && c2 == '=' {
        (TokenType::AtEqual, 2)
    } else if c == '+' {
        (TokenType::Plus, 1)
    } else if c == '-' {
        (TokenType::Minus, 1)
    } else if c == '*' {
        (TokenType::Star, 1)
    } else if c == '/' {
        (TokenType::Slash, 1)
    } else if c == '|' {
        (TokenType::Vbar, 1)
    } else if c == '&' {
        (TokenType::Amper, 1)
    } else if c == '<' {
        (TokenType::Less, 1)
    } else if c == '>' {
        (TokenType::Greater, 1)
    } else if c == '=' {
        (TokenType::Equal, 1)
    } else if c == '.' {
        (TokenType::Dot, 1)
    } else if c == '%' {
        (TokenType::Percent, 1)
    } else if c == '{' {
        (TokenType::Lbrace, 1)
    } else if c == '}' {
        (TokenType::Rbrace, 1)
    } else if c == '~' {
        (TokenType::Tilde, 1)
    } else if c == '^' {
        (TokenType::Circumflex, 1)
    } else if c == '@' {
        (TokenType::At, 1)
    } else if c == ',' {
        (TokenType::Comma, 1)
    } else if c == ':' {
        (TokenType::Colon, 1)
    } else if c == ';' {
        (TokenType::Semi, 1)
    } else if c == '(' {
        (TokenType::Lpar, 1)
    } else if c == ')' {
        (TokenType::Rpar, 1)
    } else if c == '[' {
        (TokenType::Lsqb, 1)
    } else {
        (TokenType::Rsqb, 1)
    }
}

/// What one step of this lexer does from a given position and line: hand
/// out a token spanning `[start, end)` (with the cursor, the line and the
/// token-start field after it), end the stream, or fail on a character
/// that starts no token.
pub ghost enum PyStep {
    Tok { kind: TokenType, start: int, end: int, nc: int, nl: int, ns: int },
    End { at: int },
    Fail { ch: char, at: int },
}

/// The next token from position `cur` on line `line`: whitespace other
/// than newline is skipped, a newline yields an empty-span `Newline`
/// token and moves to the next line (resetting the token-start field),
/// identifier and digit runs yield `Name` / keyword and `Number` tokens,
/// operator characters yield their longest operator.
pub open spec fn spec_py_next(src: Seq<char>, cur: int, line: int) -> PyStep
    recommends
        0 <= cur <= src.len(),
    decreases src.len() - cur,
{
    if !(0 <= cur < src.len()) {
        PyStep::End { at: cur }
    } else {
        let c = src[cur];
        if is_space_char(c) {
            spec_py_next(src, cur + 1, line)
        } else if c == '\n' {
            PyStep::Tok {
                kind: TokenType::Newline,
                start: cur,
                end: cur,
                nc: cur + 1,
                nl: if line < usize::MAX as int {
                    line + 1
                } else {
                    line
                },
                ns: 0,
            }
        } else if is_py_ident_start(c) {
            let n = py_ident_len(src.subrange(cur, src.len() as int));
            PyStep::Tok {
                kind: py_keyword_kind(src.subrange(cur, cur + n)),
                start: cur,
                end: cur + n,
                nc: cur + n,
                nl: line,
                ns: cur,
            }
        } else if is_digit_char(c) {
            let n = py_digit_len(src.subrange(cur, src.len() as int));
            PyStep::Tok {
                kind: TokenType::Number,
                start: cur,
                end: cur + n,
                nc: cur + n,
                nl: line,
                ns: cur,
            }
        } else if is_py_op_char(c) {
            let (kind, n) = spec_py_operator(src, cur);
            PyStep::Tok {
                kind,
                start: cur,
                end: cur + n,
                nc: cur + n,
                nl: line,
                ns: cur,
            }
        } else {
            PyStep::Fail { ch: c, at: cur }
        }
    }
}

/// The fine-grained lexer's state: the source it reads, the cursor (a
/// character index), where the current token started, and the line
/// number.
#[derive(Debug)]
pub struct Tokenizer<'source> {
    pub source: &'source str,
    pub current: usize,
    pub start: usize,
    pub line: usize,
}

impl<'source> Tokenizer<'source> {
    /// The lexer's basic well-formedness: the cursor stays inside the
    /// source and the line count cannot outrun the characters consumed.
    pub open spec fn inv(&self) -> bool {
        &&& self.current <= self.source@.len()
        &&& self.line <= self.current + 1
    }

    /// A lexer at the start of `source`, on line one.
    pub fn new(source: &'source str) -> (t: Tokenizer<'source>)
        ensures
            t.inv(),
            t.source@ == source@,
            t.current == 0,
            t.start == 0,
            t.line == 1,
    {
        Tokenizer { source, current: 0, start: 0, line: 1 }
    }

    /// Whether the cursor stands past the last character.
    pub fn is_at_end(&self) -> (r: bool)
        requires
            self.inv(),
        ensures
            r == (self.current == self.source@.len()),
    {
        self.current >= self.source.unicode_len()
    }

    /// The character at the cursor, moving past it; the null character
    /// at the end of input.
    pub fn advance(&mut self) -> (c: char)
        requires
            old(self).current <= old(self).source@.len(),
        ensures
            final(self).current <= final(self).source@.len(),
            final(self).source == old(self).source,
            final(self).start == old(self).start,
            final(self).line == old(self).line,
            if old(self).current < old(self).source@.len() {
                c == old(self).source@[old(self).current as int] && final(self).current == old(
                    self,
                ).current + 1
            } else {
                c == '\u{0}' && final(self).current == old(self).current
            },
    {
        let len = self.source.unicode_len();
        if self.current >= len {
            return '\u{0}';
        }
        let c = self.source.get_char(self.current);
        self.current = self.current + 1;
        c
    }

    /// The identifier or keyword token starting at the cursor; the token
    /// spans from the `start` field to the end of the run.
    pub fn get_identifier(&mut self) -> (r: Token<'source>)
        requires
            old(self).inv(),
            old(self).current < old(self).source@.len(),
            is_py_ident_start(old(self).source@[old(self).current as int]),
        ensures
            final(self).inv(),
            final(self).source == old(self).source,
            final(self).start == old(self).start,
            final(self).line == old(self).line,
            ({
                let n = py_ident_len(
                    old(self).source@.subrange(
                        old(self).current as int,
                        old(self).source@.len() as int,
                    ),
                );
                &&& final(self).current == old(self).current + n
                &&& r.token_type == py_keyword_kind(
                    old(self).source@.subrange(
                        old(self).current as int,
                        old(self).current + n,
                    ),
                )
                &&& r.source_ref.source@ == old(self).source@
                &&& r.source_ref.start == old(self).start
                &&& r.source_ref.end == old(self).current + n
                &&& r.source_ref.line == old(self).line
            }),
    {
        let len = self.source.unicode_len();
        let rest = self.source.substring_char(self.current, len);
        let n = regex_ident_prefix_len(rest);
        proof {
            let restv = self.source@.subrange(self.current as int, self.source@.len() as int);
            assert(restv[0] == self.source@[self.current as int]);
            crate::scanner::lemma_ident_run_bound(restv, 1);
        }
        let end = self.current + n;
        let text = self.source.substring_char(self.current, end);
        let kind = py_keyword_lookup(text);
        self.current = end;
        Token::new(kind, self.start, end, self.line, self.source)
    }

    /// The number token starting at the cursor; the token spans from the
    /// `start` field to the end of the digit run.
    pub fn get_number(&mut self) -> (r: Token<'source>)
        requires
            old(self).inv(),
            old(self).current < old(self).source@.len(),
            is_digit_char(old(self).source@[old(self).current as int]),
        ensures
            final(self).inv(),
            final(self).source == old(self).source,
            final(self).start == old(self).start,
            final(self).line == old(self).line,
            ({
                let n = py_digit_len(
                    old(self).source@.subrange(
                        old(self).current as int,
                        old(self).source@.len() as int,
                    ),
                );
                &&& final(self).current == old(self).current + n
                &&& r.token_type == TokenType::Number
                &&& r.source_ref.source@ == old(self).source@
                &&& r.source_ref.start == old(self).start
                &&& r.source_ref.end == old(self).current + n
                &&& r.source_ref.line == old(self).line
            }),
    {
        let len = self.source.unicode_len();
        let rest = self.source.substring_char(self.current, len);
        let n = regex_digit_prefix_len(rest);
        proof {
            let restv = self.source@.subrange(self.current as int, self.source@.len() as int);
            assert(restv[0] == self.source@[self.current as int]);
            crate::scanner::lemma_digit_run_bound(restv, 0);
        }
        let end = self.current + n;
        self.current = end;
        Token::new(TokenType::Number, self.start, end, self.line, self.source)
    }

    /// The operator or delimiter token starting at the cursor, matched
    /// longest first; the token spans from the `start` field to the end
    /// of the operator.
    pub fn get_operator(&mut self) -> (r: Token<'source>)
        requires
            old(self).inv(),
            old(self).current < old(self).source@.len(),
            is_py_op_char(old(self).source@[old(self).current as int]),
        ensures
            final(self).inv(),
            final(self).source == old(self).source,
            final(self).start == old(self).start,
            final(self).line == old(self).line,
            ({
                let (kind, n) = spec_py_operator(old(self).source@, old(self).current as int);
                &&& final(self).current == old(self).current + n
                &&& r.token_type == kind
                &&& r.source_ref.source@ == old(self).source@
                &&& r.source_ref.start == old(self).start
                &&& r.source_ref.end == old(self).current + n
                &&& r.source_ref.line == old(self).line
            }),
    {
        let len = self.source.unicode_len();
        let c = self.source.get_char(self.current);
        let c2 = if len - self.current > 1 {
            self.source.get_char(self.current + 1)
        } else {
            ' '
        };
        let c3 = if len - self.current > 2 {
            self.source.get_char(self.current + 2)
        } else {
            ' '
        };
        let (kind, n): (TokenType, usize) = if c == '<' && c2 == '<' && c3 == '=' {
            (TokenType::LeftShiftEqual, 3)
        } else if c == '>' && c2 == '>' && c3 == '=' {
            (TokenType::RightShiftEqual, 3)
        } else if c == '*' && c2 == '*' && c3 == '=' {
            (TokenType::DoubleStarEqual, 3)
        } else if c == '/' && c2 == '/' && c3 == '=' {
            (TokenType::DoubleSlashEqual, 3)
        } else if c == '.' && c2 == '.' && c3 == '.' {
            (TokenType::Ellipsis, 3)
        } else if c == '*' && c2 == '*' {
            (TokenType::DoubleStar, 2)
        } else if c == '/' && c2 == '/' {
            (TokenType::DoubleSlash, 2)
        } else if c == '<' && c2 == '<' {
            (TokenType::LeftShift, 2)
        } else if c == '>' && c2 == '>' {
            (TokenType::RightShift, 2)
        } else if c == '+' && c2 == '=' {
            (TokenType::PlusEqual, 2)
        } else if c == '-' && c2 == '=' {
            (TokenType::MinusEqual, 2)
        } else if c == '*' && c2 == '=' {
            (TokenType::StarEqual, 2)
        } else if c == '/' && c2 == '=' {
            (TokenType::SlashEqual, 2)
        } else if c == '%' && c2 == '=' {
            (TokenType::PercentEqual, 2)
        } else if c == '&' && c2 == '=' {
            (TokenType::AmperEqual, 2)
        } else if c == '|' && c2 == '=' {
            (TokenType::VbarEqual, 2)
        } else if c == '^' && c2 == '=' {
            (TokenType::CircumflexEqual, 2)
        } else if c == '-' && c2 == '>' {
            (TokenType::Rarrow, 2)
        } else if c == '=' && c2 == '=' {
            (TokenType::EqEqual, 2)
        } else if c == '<' && c2 == '=' {
            (TokenType::LessEqual, 2)
        } else if c == '>' && c2 == '=' {
            (TokenType::GreaterEqual, 2)
        } else if c == ':' && c2 == '=' {
            (TokenType::ColonEqual, 2)
        } else if c == '@' && c2 == '=' {
            (TokenType::AtEqual, 2)
        } else if c == '+' {
            (TokenType::Plus, 1)
        } else if c == '-' {
            (TokenType::Minus, 1)
        } else if c == '*' {
            (TokenType::Star, 1)
        } else if c == '/' {
            (TokenType::Slash, 1)
        } else if c == '|' {
            (TokenType::Vbar, 1)
        } else if c == '&' {
            (TokenType::Amper, 1)
        } else if c == '<' {
            (TokenType::Less, 1)
        } else if c == '>' {
            (TokenType::Greater, 1)
        } else if c == '=' {
            (TokenType::Equal, 1)
        } else if c == '.' {
            (TokenType::Dot, 1)
        } else if c == '%' {
            (TokenType::Percent, 1)
        } else if c == '{' {
            (TokenType::Lbrace, 1)
        } else if c == '}' {
            (TokenType::Rbrace, 1)
        } else if c == '~' {
            (TokenType::Tilde, 1)
        } else if c == '^' {
            (TokenType::Circumflex, 1)
        } else if c == '@' {
            (TokenType::At, 1)
        } else if c == ',' {
            (TokenType::Comma, 1)
        } else if c == ':' {
            (TokenType::Colon, 1)
        } else if c == ';' {
            (TokenType::Semi, 1)
        } else if c == '(' {
            (TokenType::Lpar, 1)
        } else if c == ')' {
            (TokenType::Rpar, 1)
        } else if c == '[' {
            (TokenType::Lsqb, 1)
        } else {
            (TokenType::Rsqb, 1)
        };
        let end = self.current + n;
        self.current = end;
        Token::new(kind, self.start, end, self.line, self.source)
    }

    /// The next token: exactly what `spec_py_next` names for the current
    /// state, or the first character that starts no token.
    pub fn next(&mut self) -> (r: Result<Token<'source>, LexError>)
        requires
            old(self).inv(),
        ensures
            final(self).inv(),
            final(self).source == old(self).source,
            match spec_py_next(old(self).source@, old(self).current as int, old(self).line as int) {
                PyStep::End { at } => {
                    &&& r matches Ok(t)
                    &&& (r matches Ok(t) ==> {
                        &&& t.token_type == TokenType::EndMarker
                        &&& t.source_ref.start == at
                        &&& t.source_ref.end == at
                        &&& t.source_ref.line == old(self).line
                    })
                    &&& final(self).current == at
                    &&& final(self).line == old(self).line
                },
                PyStep::Tok { kind, start, end, nc, nl, ns } => {
                    &&& r matches Ok(t)
                    &&& (r matches Ok(t) ==> {
                        &&& t.token_type == kind
                        &&& t.source_ref.start == start
                        &&& t.source_ref.end == end
                        &&& t.source_ref.source@ == old(self).source@
                    })
                    &&& final(self).current == nc
                    &&& final(self).line == nl
                    &&& final(self).start == ns
                },
                PyStep::Fail { ch, at } => {
                    &&& r matches Err(e)
                    &&& (r matches Err(e) ==> e == (LexError {
                        kind: LexErrorKind::UnrecognizedChar,
                        ch,
                        position: at as usize,
                    }))
                    &&& final(self).current == at
                    &&& final(self).line == old(self).line
                },
            },
        decreases old(self).source@.len() - old(self).current,
    {
        if self.is_at_end() {
            return Ok(Token::endmarker(self.current, self.line, self.source));
        }
        let ch = self.source.get_char(self.current);
        self.start = self.current;
        if ch == ' ' || ch == '\r' || ch == '\t' {
            self.advance();
            self.next()
        } else if ch == '\n' {
            let token = Token::new(
                TokenType::Newline,
                self.start,
                self.current,
                self.line,
                self.source,
            );
            if self.line < usize::MAX {
                self.line = self.line + 1;
            }
            self.start = 0;
            self.advance();
            Ok(token)
        } else if crate::scanner::is_alpha(ch) || ch == '_' {
            Ok(self.get_identifier())
        } else if crate::scanner::is_digit(ch) {
            Ok(self.get_number())
        } else if ch == '|' || ch == '&' || ch == '/' || ch == '+' || ch == '-' || ch == '*'
            || ch == '<' || ch == '>' || ch == '=' || ch == '.' || ch == '%' || ch == '{'
            || ch == '}' || ch == '~' || ch == '^' || ch == '@' || ch == ',' || ch == ':'
            || ch == ';' || ch == '(' || ch == ')' || ch == '[' || ch == ']' {
            Ok(self.get_operator())
        } else {
            Err(LexError { kind: LexErrorKind::UnrecognizedChar, ch, position: self.current })
        }
    }
}

/// Look an identifier-shaped word up in the keyword table.
fn py_keyword_lookup(text: &str) -> (k: TokenType)
    ensures
        k == py_keyword_kind(text@),
{
    let owned = text.to_owned();
    if owned == "and".to_owned() {
        TokenType::And
    } else if owned == "as".to_owned() {
        TokenType::As
    } else if owned == "assert".to_owned() {
        TokenType::Assert
    } else if owned == "break".to_owned() {
        TokenType::Break
    } else if owned == "class".to_owned() {
        TokenType::Class
    } else if owned == "continue".to_owned() {
        TokenType::Continue
    } else if owned == "def".to_owned() {
        TokenType::Def
    } else if owned == "del".to_owned() {
        TokenType::Del
    } else if owned == "elif".to_owned() {
        TokenType::Elif
    } else if owned == "else".to_owned() {
        TokenType::Else
    } else if owned == "except".to_owned() {
        TokenType::Except
    } else if owned == "False".to_owned() {
        TokenType::False
    } else if owned == "finally".to_owned() {
        TokenType::Finally
    } else if owned == "for".to_owned() {
        TokenType::For
    } else if owned == "from".to_owned() {
        TokenType::From
    } else if owned == "global".to_owned() {
        TokenType::Global
    } else if owned == "if".to_owned() {
        TokenType::If
    } else if owned == "import".to_owned() {
        TokenType::Import
    } else if owned == "in".to_owned() {
        TokenType::In
    } else if owned == "is".to_owned() {
        TokenType::Is
    } else if owned == "lambda".to_owned() {
        TokenType::Lambda
    } else if owned == "None".to_owned() {
        TokenType::NoneKw
    } else if owned == "nonlocal".to_owned() {
        TokenType::Nonlocal
    } else if owned == "not".to_owned() {
        TokenType::Not
    } else if owned == "or".to_owned() {
        TokenType::Or
    } else if owned == "pass".to_owned() {
        TokenType::Pass
    } else if owned == "raise".to_owned() {
        TokenType::Raise
    } else if owned == "return".to_owned() {
        TokenType::Return
    } else if owned == "True".to_owned() {
        TokenType::True
    } else if owned == "try".to_owned() {
        TokenType::Try
    } else if owned == "while".to_owned() {
        TokenType::While
    } else if owned == "with".to_owned() {
        TokenType::With
    } else if owned == "yield".to_owned() {
        TokenType::Yield
    } else {
        TokenType::Name
    }
}

} // verus!
