//! The scanner: source text to a token stream.  One- and two-character
//! operators, line comments, double-quoted strings that may span newlines,
//! decimal numbers with an optional single point, identifiers and keywords.
//! Unknown characters are skipped silently; an unterminated string is an
//! error.  The specification scanner `scan_all` pins the token stream down
//! for every source text.

use vstd::prelude::*;

use crate::float_bits::{decimal_value_of, num_from_decimal};
use crate::text::{string_from_chars, chars_of_str, str_eq};
use crate::token::{TokV, Token, TokenType};
use crate::value::{LitV, LiteralValue};
use crate::LoxErr;

verus! {

/// `c` is an ASCII digit.
pub open spec fn is_digit_char(c: char) -> bool {
    ('0' as u32) <= (c as u32) && (c as u32) <= ('9' as u32)
}

/// `c` may appear in an identifier: an ASCII letter, a digit or `_`.
pub open spec fn is_ident_char(c: char) -> bool {
    is_digit_char(c) || (('a' as u32) <= (c as u32) && (c as u32) <= ('z' as u32)) || (('A' as u32)
        <= (c as u32) && (c as u32) <= ('Z' as u32)) || c == '_'
}

/// The first index at or after `j` that does not hold a digit.
pub open spec fn digits_end(src: Seq<char>, j: int) -> int
    decreases src.len() - j,
{
    if 0 <= j < src.len() && is_digit_char(src[j]) {
        digits_end(src, j + 1)
    } else {
        j
    }
}

/// The first index at or after `j` that does not hold an identifier
/// character.
pub open spec fn ident_end(src: Seq<char>, j: int) -> int
    decreases src.len() - j,
{
    if 0 <= j < src.len() && is_ident_char(src[j]) {
        ident_end(src, j + 1)
    } else {
        j
    }
}

/// The first index at or after `j` that holds a newline, or the end of the
/// source: where a line comment stops.
pub open spec fn comment_end(src: Seq<char>, j: int) -> int
    decreases src.len() - j,
{
    if 0 <= j < src.len() && src[j] != '\n' {
        comment_end(src, j + 1)
    } else {
        j
    }
}

/// Scans a string literal's body from `j`: the index just past the closing
/// quote and the line number after any newlines inside, or the scan error
/// for a string still open at the end of the source.
pub open spec fn string_scan(src: Seq<char>, j: int, line: nat) -> Result<(int, nat), Seq<char>>
    decreases src.len() - j,
{
    if j < 0 || j >= src.len() {
        Err("Reached EOF"@)
    } else if src[j] == '"' {
        Ok((j + 1, line))
    } else if src[j] == '\n' {
        string_scan(src, j + 1, line + 1)
    } else {
        string_scan(src, j + 1, line)
    }
}

/// `digits_end` stays within `[j, len]`.
pub proof fn lemma_digits_end(src: Seq<char>, j: int)
    requires
        0 <= j <= src.len(),
    ensures
        j <= digits_end(src, j) <= src.len(),
    decreases src.len() - j,
{
    if j < src.len() && is_digit_char(src[j]) {
        lemma_digits_end(src, j + 1);
    }
}

/// `ident_end` stays within `[j, len]`.
pub proof fn lemma_ident_end(src: Seq<char>, j: int)
    requires
        0 <= j <= src.len(),
    ensures
        j <= ident_end(src, j) <= src.len(),
    decreases src.len() - j,
{
    if j < src.len() && is_ident_char(src[j]) {
        lemma_ident_end(src, j + 1);
    }
}

/// `comment_end` stays within `[j, len]`.
pub proof fn lemma_comment_end(src: Seq<char>, j: int)
    requires
        0 <= j <= src.len(),
    ensures
        j <= comment_end(src, j) <= src.len(),
    decreases src.len() - j,
{
    if j < src.len() && src[j] != '\n' {
        lemma_comment_end(src, j + 1);
    }
}

/// A successful `string_scan` lands strictly past `j`, within the source.
pub proof fn lemma_string_scan(src: Seq<char>, j: int, line: nat)
    requires
        0 <= j <= src.len(),
    ensures
        string_scan(src, j, line) matches Ok(e) ==> j < e.0 <= src.len(),
    decreases src.len() - j,
{
    if j < src.len() && src[j] != '"' {
        if src[j] == '\n' {
            lemma_string_scan(src, j + 1, line + 1);
        } else {
            lemma_string_scan(src, j + 1, line);
        }
    }
}

/// The keyword of the language spelt by `s`, if any.
pub open spec fn kw_lookup(s: Seq<char>) -> Option<TokenType> {
    if s == "and"@ {
        Some(TokenType::AND)
    } else if s == "class"@ {
        Some(TokenType::CLASS)
    } else if s == "else"@ {
        Some(TokenType::ELSE)
    } else if s == "false"@ {
        Some(TokenType::FALSE)
    } else if s == "fun"@ {
        Some(TokenType::FUN)
    } else if s == "for"@ {
        Some(TokenType::FOR)
    } else if s == "if"@ {
        Some(TokenType::IF)
    } else if s == "nil"@ {
        Some(TokenType::NIL)
    } else if s == "or"@ {
        Some(TokenType::OR)
    } else if s == "print"@ {
        Some(TokenType::PRINT)
    } else if s == "return"@ {
        Some(TokenType::RETURN)
    } else if s == "super"@ {
        Some(TokenType::SUPER)
    } else if s == "this"@ {
        Some(TokenType::THIS)
    } else if s == "true"@ {
        Some(TokenType::TRUE)
    } else if s == "var"@ {
        Some(TokenType::VAR)
    } else if s == "while"@ {
        Some(TokenType::WHILE)
    } else if s == "assert"@ {
        Some(TokenType::ASSERT)
    } else {
        None
    }
}

/// A token value from its parts.
pub open spec fn tok_of(t: TokenType, lexeme: Seq<char>, literal: Option<LitV>, line: nat) -> TokV {
    TokV { token_type: t, lexeme, literal, line_number: line }
}

/// What the scanner does at position `i`: skip ahead, emit one token, or
/// fail.
pub enum ScanStep {
    Skip { next: int, line: nat },
    Emit { tok: TokV, next: int, line: nat },
    Fail { msg: Seq<char> },
}

/// One scanning step at position `i` of the source, on line `line`.
pub open spec fn scan_one(src: Seq<char>, i: int, line: nat) -> ScanStep
    recommends
        0 <= i < src.len(),
{
    let c = src[i];
    if c == '{' {
        ScanStep::Emit { tok: tok_of(TokenType::LEFTBRACE, src.subrange(i, i + 1), None, line), next: i + 1, line }
    } else if c == '}' {
        ScanStep::Emit { tok: tok_of(TokenType::RIGHTBRACE, src.subrange(i, i + 1), None, line), next: i + 1, line }
    } else if c == '(' {
        ScanStep::Emit { tok: tok_of(TokenType::LEFTPAREN, src.subrange(i, i + 1), None, line), next: i + 1, line }
    } else if c == ')' {
        ScanStep::Emit { tok: tok_of(TokenType::RIGHTPAREN, src.subrange(i, i + 1), None, line), next: i + 1, line }
    } else if c == ',' {
        ScanStep::Emit { tok: tok_of(TokenType::COMMA, src.subrange(i, i + 1), None, line), next: i + 1, line }
    } else if c == '-' {
        ScanStep::Emit { tok: tok_of(TokenType::MINUS, src.subrange(i, i + 1), None, line), next: i + 1, line }
    } else if c == '.' {
        ScanStep::Emit { tok: tok_of(TokenType::DOT, src.subrange(i, i + 1), None, line), next: i + 1, line }
    } else if c == '*' {
        ScanStep::Emit { tok: tok_of(TokenType::STAR, src.subrange(i, i + 1), None, line), next: i + 1, line }
    } else if c == '+' {
        ScanStep::Emit { tok: tok_of(TokenType::PLUS, src.subrange(i, i + 1), None, line), next: i + 1, line }
    } else if c == ';' {
        ScanStep::Emit { tok: tok_of(TokenType::SEMICOLON, src.subrange(i, i + 1), None, line), next: i + 1, line }
    } else if c == '!' {
        if i + 1 < src.len() && src[i + 1] == '=' {
            ScanStep::Emit { tok: tok_of(TokenType::BANGEQUAL, src.subrange(i, i + 2), None, line), next: i + 2, line }
        } else {
            ScanStep::Emit { tok: tok_of(TokenType::BANG, src.subrange(i, i + 1), None, line), next: i + 1, line }
        }
    } else if c == '<' {
        if i + 1 < src.len() && src[i + 1] == '=' {
            ScanStep::Emit { tok: tok_of(TokenType::LESSEQUAL, src.subrange(i, i + 2), None, line), next: i + 2, line }
        } else {
            ScanStep::Emit { tok: tok_of(TokenType::LESS, src.subrange(i, i + 1), None, line), next: i + 1, line }
        }
    } else if c == '>' {
        if i + 1 < src.len() && src[i + 1] == '=' {
            ScanStep::Emit { tok: tok_of(TokenType::GREATEREQUAL, src.subrange(i, i + 2), None, line), next: i + 2, line }
        } else {
            ScanStep::Emit { tok: tok_of(TokenType::GREATER, src.subrange(i, i + 1), None, line), next: i + 1, line }
        }
    } else if c == '=' {
        if i + 1 < src.len() && src[i + 1] == '=' {
            ScanStep::Emit { tok: tok_of(TokenType::EQUALEQUAL, src.subrange(i, i + 2), None, line), next: i + 2, line }
        } else {
            ScanStep::Emit { tok: tok_of(TokenType::EQUAL, src.subrange(i, i + 1), None, line), next: i + 1, line }
        }
    } else if c == '/' {
        if i + 1 < src.len() && src[i + 1] == '/' {
            ScanStep::Skip { next: comment_end(src, i + 2), line }
        } else {
            ScanStep::Emit { tok: tok_of(TokenType::SLASH, src.subrange(i, i + 1), None, line), next: i + 1, line }
        }
    } else if c == '"' {
        match string_scan(src, i + 1, line) {
            Ok(e) => ScanStep::Emit {
                tok: tok_of(
                    TokenType::STRINGLIT,
                    src.subrange(i, e.0),
                    Some(LitV::StringValue(src.subrange(i + 1, e.0 - 1))),
                    e.1,
                ),
                next: e.0,
                line: e.1,
            },
            Err(m) => ScanStep::Fail { msg: m },
        }
    } else if c == '\n' {
        ScanStep::Skip { next: i + 1, line: line + 1 }
    } else if c == ' ' || c == '\r' || c == '\t' {
        ScanStep::Skip { next: i + 1, line }
    } else if is_digit_char(c) {
        let d1 = digits_end(src, i);
        let d2 = if d1 + 1 < src.len() && src[d1] == '.' && is_digit_char(src[d1 + 1]) {
            digits_end(src, d1 + 1)
        } else {
            d1
        };
        let lex = src.subrange(i, d2);
        match decimal_value_of(lex) {
            Some(b) => ScanStep::Emit {
                tok: tok_of(TokenType::NUMBER, lex, Some(LitV::FValue(b)), line),
                next: d2,
                line,
            },
            None => ScanStep::Fail { msg: "invalid float literal"@ },
        }
    } else if is_ident_char(c) {
        let e = ident_end(src, i);
        let lex = src.subrange(i, e);
        match kw_lookup(lex) {
            Some(tt) => ScanStep::Emit { tok: tok_of(tt, lex, None, line), next: e, line },
            None => ScanStep::Emit {
                tok: tok_of(TokenType::IDENTIFIER, lex, Some(LitV::IdentifierValue(lex)), line),
                next: e,
                line,
            },
        }
    } else {
        ScanStep::Skip { next: i + 1, line }
    }
}

/// Prefixes already-scanned tokens onto the outcome of scanning the rest.
pub open spec fn prepend(p: Seq<TokV>, r: Result<Seq<TokV>, Seq<char>>) -> Result<
    Seq<TokV>,
    Seq<char>,
> {
    match r {
        Ok(t) => Ok(p + t),
        Err(m) => Err(m),
    }
}

/// The token stream of the source from position `i` on (line `line`),
/// ending with the EOF token, or the scan error.
pub open spec fn scan_all(src: Seq<char>, i: int, line: nat) -> Result<Seq<TokV>, Seq<char>>
    decreases src.len() - i,
        via scan_all_dec
{
    if i < 0 || i >= src.len() {
        Ok(seq![tok_of(TokenType::EOF, Seq::empty(), None, line)])
    } else {
        match scan_one(src, i, line) {
            ScanStep::Skip { next, line: l2 } => scan_all(src, next, l2),
            ScanStep::Emit { tok, next, line: l2 } => prepend(seq![tok], scan_all(src, next, l2)),
            ScanStep::Fail { msg } => Err(msg),
        }
    }
}

#[via_fn]
proof fn scan_all_dec(src: Seq<char>, i: int, line: nat) {
    if 0 <= i < src.len() {
        lemma_digits_end(src, i);
        lemma_digits_end(src, i + 1);
        if digits_end(src, i) + 1 < src.len() {
            lemma_digits_end(src, digits_end(src, i) + 1);
        }
        lemma_ident_end(src, i);
        lemma_ident_end(src, i + 1);
        if i + 2 <= src.len() {
            lemma_comment_end(src, i + 2);
        }
        lemma_string_scan(src, i + 1, line);
    }
}

/// The views of a scanned token vector.
pub open spec fn tok_views(v: Seq<Token>) -> Seq<TokV> {
    v.map_values(|t: Token| t@)
}

/// Whether `c` is an ASCII digit.
fn digit_char(c: char) -> (r: bool)
    ensures
        r == is_digit_char(c),
{
    (c as u32) >= ('0' as u32) && (c as u32) <= ('9' as u32)
}

/// Whether `c` may appear in an identifier.
fn ident_char(c: char) -> (r: bool)
    ensures
        r == is_ident_char(c),
{
    digit_char(c) || ((c as u32) >= ('a' as u32) && (c as u32) <= ('z' as u32)) || ((c as u32)
        >= ('A' as u32) && (c as u32) <= ('Z' as u32)) || c == '_'
}

/// The characters of `v` between `a` and `b`, as a `String`.
fn text_range(v: &Vec<char>, a: usize, b: usize) -> (s: String)
    requires
        a <= b <= v@.len(),
    ensures
        s@ == v@.subrange(a as int, b as int),
{
    let mut chars: Vec<char> = Vec::new();
    let mut i: usize = a;
    while i < b
        invariant
            a <= i <= b <= v@.len(),
            chars@ == v@.subrange(a as int, i as int),
        decreases b - i,
    {
        chars.push(v[i]);
        i = i + 1;
        proof {
            assert(chars@ =~= v@.subrange(a as int, i as int));
        }
    }
    string_from_chars(&chars)
}

/// The keyword spelt by `s`, if any.
fn keyword_type(s: &str) -> (r: Option<TokenType>)
    ensures
        r == kw_lookup(s@),
{
    if str_eq(s, "and") {
        Some(TokenType::AND)
    } else if str_eq(s, "class") {
        Some(TokenType::CLASS)
    } else if str_eq(s, "else") {
        Some(TokenType::ELSE)
    } else if str_eq(s, "false") {
        Some(TokenType::FALSE)
    } else if str_eq(s, "fun") {
        Some(TokenType::FUN)
    } else if str_eq(s, "for") {
        Some(TokenType::FOR)
    } else if str_eq(s, "if") {
        Some(TokenType::IF)
    } else if str_eq(s, "nil") {
        Some(TokenType::NIL)
    } else if str_eq(s, "or") {
        Some(TokenType::OR)
    } else if str_eq(s, "print") {
        Some(TokenType::PRINT)
    } else if str_eq(s, "return") {
        Some(TokenType::RETURN)
    } else if str_eq(s, "super") {
        Some(TokenType::SUPER)
    } else if str_eq(s, "this") {
        Some(TokenType::THIS)
    } else if str_eq(s, "true") {
        Some(TokenType::TRUE)
    } else if str_eq(s, "var") {
        Some(TokenType::VAR)
    } else if str_eq(s, "while") {
        Some(TokenType::WHILE)
    } else if str_eq(s, "assert") {
        Some(TokenType::ASSERT)
    } else {
        None
    }
}

/// The scanner's progress through the source.
pub struct ScanV {
    pub source: Seq<char>,
    pub current: nat,
    pub line: nat,
}

/// The scanner: the source as characters, the position of the next
/// character to read, and the current 1-based line.
pub struct Scanner {
    source: Vec<char>,
    current: usize,
    line: usize,
}

impl View for Scanner {
    type V = ScanV;

    closed spec fn view(&self) -> ScanV {
        ScanV { source: self.source@, current: self.current as nat, line: self.line as nat }
    }
}

impl Scanner {
    /// A scanner at the start of the source, on line 1.
    pub fn new(contents: &str) -> (r: Self)
        ensures
            r@.source == contents@,
            r@.current == 0,
            r@.line == 1,
    {
        Scanner { source: chars_of_str(contents), current: 0, line: 1 }
    }

    /// One scanning step: does to the scanner and `tokens` exactly what
    /// `scan_one` says.
    #[verifier::loop_isolation(false)]
    fn scan_token(&mut self, tokens: &mut Vec<Token>) -> (r: Result<(), LoxErr>)
        requires
            old(self)@.current < old(self)@.source.len(),
            old(self)@.line + (old(self)@.source.len() - old(self)@.current) <= usize::MAX,
        ensures
            final(self)@.source == old(self)@.source,
            final(self)@.current <= final(self)@.source.len(),
            final(self)@.line + (final(self)@.source.len() - final(self)@.current) <= old(
                self,
            )@.line + (old(self)@.source.len() - old(self)@.current),
            match r {
                Ok(u) => old(self)@.current < final(self)@.current && match scan_one(
                    old(self)@.source,
                    old(self)@.current as int,
                    old(self)@.line,
                ) {
                    ScanStep::Skip { next, line } => final(tokens)@ == old(tokens)@
                        && final(self)@.current == next && final(self)@.line == line,
                    ScanStep::Emit { tok, next, line } => final(tokens)@.len() == old(tokens)@.len()
                        + 1 && final(tokens)@.drop_last() == old(tokens)@
                        && final(tokens)@.last()@ == tok && final(self)@.current == next
                        && final(self)@.line == line,
                    ScanStep::Fail { msg } => false,
                },
                Err(e) => scan_one(old(self)@.source, old(self)@.current as int, old(self)@.line)
                    matches ScanStep::Fail { msg } && e@ == msg && final(tokens)@ == old(tokens)@,
            },
    {
        let ghost src = self.source@;
        let ghost i = self.current as int;
        let ghost line0 = self.line as nat;
        let start = self.current;
        let srclen = self.source.len();
        let c = self.source[self.current];
        if c == '{' || c == '}' || c == '(' || c == ')' || c == ',' || c == '-' || c == '.' || c
            == '*' || c == '+' || c == ';' {
            let tt = if c == '{' {
                TokenType::LEFTBRACE
            } else if c == '}' {
                TokenType::RIGHTBRACE
            } else if c == '(' {
                TokenType::LEFTPAREN
            } else if c == ')' {
                TokenType::RIGHTPAREN
            } else if c == ',' {
                TokenType::COMMA
            } else if c == '-' {
                TokenType::MINUS
            } else if c == '.' {
                TokenType::DOT
            } else if c == '*' {
                TokenType::STAR
            } else if c == '+' {
                TokenType::PLUS
            } else {
                TokenType::SEMICOLON
            };
            self.current = self.current + 1;
            let lex = text_range(&self.source, start, self.current);
            tokens.push(Token { token_type: tt, lexeme: lex, literal: None, line_number: self.line });
            return Ok(());
        }
        if c == '!' || c == '<' || c == '>' || c == '=' {
            let two = self.current + 1 < self.source.len() && self.source[self.current + 1] == '=';
            let tt = if c == '!' {
                if two {
                    TokenType::BANGEQUAL
                } else {
                    TokenType::BANG
                }
            } else if c == '<' {
                if two {
                    TokenType::LESSEQUAL
                } else {
                    TokenType::LESS
                }
            } else if c == '>' {
                if two {
                    TokenType::GREATEREQUAL
                } else {
                    TokenType::GREATER
                }
            } else {
                if two {
                    TokenType::EQUALEQUAL
                } else {
                    TokenType::EQUAL
                }
            };
            self.current = self.current + if two {
                2
            } else {
                1
            };
            let lex = text_range(&self.source, start, self.current);
            tokens.push(Token { token_type: tt, lexeme: lex, literal: None, line_number: self.line });
            return Ok(());
        }
        if c == '/' {
            if self.current + 1 < self.source.len() && self.source[self.current + 1] == '/' {
                let mut j = self.current + 2;
                while j < self.source.len() && self.source[j] != '\n'
                    invariant
                        self.current + 2 <= j <= self.source@.len(),
                        comment_end(src, self.current + 2) == comment_end(src, j as int),
                    decreases self.source@.len() - j,
                {
                    j = j + 1;
                }
                self.current = j;
                return Ok(());
            }
            self.current = self.current + 1;
            let lex = text_range(&self.source, start, self.current);
            tokens.push(
                Token { token_type: TokenType::SLASH, lexeme: lex, literal: None, line_number: self.line },
            );
            return Ok(());
        }
        if c == '"' {
            let mut j = self.current + 1;
            let mut ln = self.line;
            loop
                invariant
                    self.current + 1 <= j <= self.source@.len(),
                    self.line as nat <= ln as nat,
                    ln as nat + (src.len() - j) <= self.line as nat + (src.len() - (i + 1)),
                    string_scan(src, i + 1, line0) == string_scan(src, j as int, ln as nat),
                decreases self.source@.len() - j,
            {
                if j >= self.source.len() {
                    return Err(LoxErr { msg: "Reached EOF".to_owned() });
                }
                let cj = self.source[j];
                if cj == '"' {
                    j = j + 1;
                    break;
                }
                if cj == '\n' {
                    ln = ln + 1;
                }
                j = j + 1;
            }
            proof {
                lemma_string_scan(src, i + 1, line0);
            }
            let lex = text_range(&self.source, start, j);
            let body = text_range(&self.source, start + 1, j - 1);
            self.current = j;
            self.line = ln;
            tokens.push(
                Token {
                    token_type: TokenType::STRINGLIT,
                    lexeme: lex,
                    literal: Some(LiteralValue::StringValue(body)),
                    line_number: ln,
                },
            );
            return Ok(());
        }
        if c == '\n' {
            self.current = self.current + 1;
            self.line = self.line + 1;
            return Ok(());
        }
        if c == ' ' || c == '\r' || c == '\t' {
            self.current = self.current + 1;
            return Ok(());
        }
        if digit_char(c) {
            let mut j = self.current;
            while j < self.source.len() && digit_char(self.source[j])
                invariant
                    self.current <= j <= self.source@.len(),
                    digits_end(src, self.current as int) == digits_end(src, j as int),
                decreases self.source@.len() - j,
            {
                j = j + 1;
            }
            proof {
                lemma_digits_end(src, i);
                lemma_digits_end(src, i + 1);
            }
            if j < self.source.len() && j + 1 < self.source.len() && self.source[j] == '.'
                && digit_char(self.source[j + 1]) {
                let ghost d1 = j as int;
                j = j + 1;
                let ghost jd = j as int;
                while j < self.source.len() && digit_char(self.source[j])
                    invariant
                        jd <= j <= self.source@.len(),
                        digits_end(src, jd) == digits_end(src, j as int),
                    decreases self.source@.len() - j,
                {
                    j = j + 1;
                }
                proof {
                    lemma_digits_end(src, jd);
                }
            }
            let lex = text_range(&self.source, start, j);
            match num_from_decimal(lex.as_str()) {
                Some(b) => {
                    self.current = j;
                    tokens.push(
                        Token {
                            token_type: TokenType::NUMBER,
                            lexeme: lex,
                            literal: Some(LiteralValue::FValue(b)),
                            line_number: self.line,
                        },
                    );
                    return Ok(());
                },
                None => {
                    return Err(LoxErr { msg: "invalid float literal".to_owned() });
                },
            }
        }
        if ident_char(c) {
            let mut j = self.current;
            while j < self.source.len() && ident_char(self.source[j])
                invariant
                    self.current <= j <= self.source@.len(),
                    ident_end(src, self.current as int) == ident_end(src, j as int),
                decreases self.source@.len() - j,
            {
                j = j + 1;
            }
            proof {
                lemma_ident_end(src, i);
                lemma_ident_end(src, i + 1);
            }
            let lex = text_range(&self.source, start, j);
            self.current = j;
            match keyword_type(lex.as_str()) {
                Some(tt) => {
                    tokens.push(
                        Token { token_type: tt, lexeme: lex, literal: None, line_number: self.line },
                    );
                },
                None => {
                    let body = lex.clone();
                    tokens.push(
                        Token {
                            token_type: TokenType::IDENTIFIER,
                            lexeme: lex,
                            literal: Some(LiteralValue::IdentifierValue(body)),
                            line_number: self.line,
                        },
                    );
                },
            }
            return Ok(());
        }
        self.current = self.current + 1;
        Ok(())
    }

    /// Scans the whole source: the token stream of `scan_all`, ending with
    /// the EOF token, or the scan error.
    #[verifier::loop_isolation(false)]
    pub fn scan_tokens(&mut self) -> (r: Result<Vec<Token>, LoxErr>)
        requires
            old(self)@.current == 0,
            old(self)@.line == 1,
            old(self)@.source.len() + 1 <= usize::MAX,
        ensures
            match r {
                Ok(toks) => scan_all(old(self)@.source, 0, 1) == Ok::<Seq<TokV>, Seq<char>>(
                    tok_views(toks@),
                ),
                Err(e) => scan_all(old(self)@.source, 0, 1) == Err::<Seq<TokV>, Seq<char>>(e@),
            },
    {
        let ghost src = self.source@;
        let mut tokens: Vec<Token> = Vec::new();
        proof {
            assert(prepend(tok_views(tokens@), scan_all(src, 0, 1)) == scan_all(src, 0, 1)) by {
                match scan_all(src, 0, 1) {
                    Ok(t) => {
                        assert(tok_views(tokens@) =~= Seq::<TokV>::empty());
                        assert(tok_views(tokens@) + t =~= t);
                    },
                    Err(m) => {},
                }
            }
        }
        while self.current < self.source.len()
            invariant
                self@.source == src,
                self@.current <= src.len(),
                self@.line + (src.len() - self@.current) <= 1 + src.len(),
                scan_all(src, 0, 1) == prepend(
                    tok_views(tokens@),
                    scan_all(src, self@.current as int, self@.line),
                ),
            decreases src.len() - self@.current,
        {
            let ghost cur0 = self@.current as int;
            let ghost line_before = self@.line;
            let ghost toks0 = tokens@;
            let step = self.scan_token(&mut tokens);
            proof {
                lemma_digits_end(src, cur0);
                if digits_end(src, cur0) + 1 < src.len() {
                    lemma_digits_end(src, digits_end(src, cur0) + 1);
                }
                lemma_ident_end(src, cur0);
                if cur0 + 2 <= src.len() {
                    lemma_comment_end(src, cur0 + 2);
                }
                lemma_string_scan(src, cur0 + 1, line_before);
            }
            match step {
                Ok(u) => {
                    proof {
                        match scan_one(src, cur0, line_before) {
                            ScanStep::Skip { next, line } => {},
                            ScanStep::Emit { tok, next, line } => {
                                assert(tok_views(tokens@) =~= tok_views(toks0) + seq![tok]);
                                assert(prepend(
                                    tok_views(toks0),
                                    prepend(seq![tok], scan_all(src, next, line)),
                                ) == prepend(tok_views(tokens@), scan_all(src, next, line))) by {
                                    match scan_all(src, next, line) {
                                        Ok(t) => {
                                            assert(tok_views(toks0) + (seq![tok] + t) =~= (
                                            tok_views(toks0) + seq![tok]) + t);
                                        },
                                        Err(m) => {},
                                    }
                                }
                            },
                            ScanStep::Fail { msg } => {},
                        }
                    }
                },
                Err(e) => {
                    return Err(e);
                },
            }
        }
        let line_number = self.line;
        proof {
            assert(scan_all(src, self@.current as int, self@.line) == Ok::<Seq<TokV>, Seq<char>>(
                seq![tok_of(TokenType::EOF, Seq::empty(), None, self@.line)],
            ));
        }
        let ghost prev = tokens@;
        tokens.push(
            Token { token_type: TokenType::EOF, lexeme: String::new(), literal: None, line_number },
        );
        proof {
            assert(tokens@.last()@ == tok_of(TokenType::EOF, Seq::empty(), None, self@.line));
            assert(tok_views(tokens@) =~= tok_views(prev) + seq![
                tok_of(TokenType::EOF, Seq::empty(), None, self@.line),
            ]);
            assert(scan_all(src, 0, 1) == Ok::<Seq<TokV>, Seq<char>>(tok_views(tokens@)));
        }
        Ok(tokens)
    }
}

} // verus!
