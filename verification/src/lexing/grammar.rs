//! What the lexer reads, stated over the bytes of the source.
//!
//! Positions are byte indices.  A scan that starts at a position either
//! recognises a token that ends at some later position, or fails with an
//! error; in both cases it reports where the lexer stands afterwards.
use vstd::prelude::*;

use crate::lexing::ascii::{ascii_bytes, is_alpha, is_digit};
use crate::lexing::builtins::Builtins;
use crate::lexing::error::{LexError, IDENTIFIER_SUBSCRIPT};
use crate::lexing::span::Span;
use crate::lexing::{
    Element, LeftRight, NumberLiteral, PairedPunct, Punctuation, Token, TokenKind,
};

verus! {

pub open spec fn byte_at(s: Seq<u8>, i: int) -> Option<u8> {
    if 0 <= i < s.len() {
        Some(s[i])
    } else {
        None
    }
}

pub open spec fn byte_is(s: Seq<u8>, i: int, c: u8) -> bool {
    byte_at(s, i) == Some(c)
}

pub open spec fn digit_at(s: Seq<u8>, i: int) -> bool {
    0 <= i < s.len() && is_digit(s[i])
}

pub open spec fn alpha_at(s: Seq<u8>, i: int) -> bool {
    0 <= i < s.len() && is_alpha(s[i])
}

/// The end of the run of digits that starts at `i`.
pub open spec fn digits_end(s: Seq<u8>, i: int) -> int
    decreases s.len() - i,
{
    if digit_at(s, i) {
        digits_end(s, i + 1)
    } else {
        i
    }
}

/// The end of the run of ASCII letters that starts at `i`.
pub open spec fn alpha_end(s: Seq<u8>, i: int) -> int
    decreases s.len() - i,
{
    if alpha_at(s, i) {
        alpha_end(s, i + 1)
    } else {
        i
    }
}

/// Where the next token starts: spaces and `\ ` (a backslash and a space) are
/// passed over.
pub open spec fn skip_blanks(s: Seq<u8>, i: int) -> int
    decreases s.len() - i,
{
    if byte_is(s, i, ' ' as u8) {
        skip_blanks(s, i + 1)
    } else if byte_is(s, i, '\\' as u8) && byte_is(s, i + 1, ' ' as u8) {
        skip_blanks(s, i + 2)
    } else {
        i
    }
}

/// The outcome of reading one token: the token's kind, or the error, and the
/// position at which the lexer stands afterwards.
pub enum Scan {
    Token { kind: TokenKind, end: int },
    Fail { error: LexError, end: int },
}

/// Punctuation written as one byte.
pub open spec fn single_punct(c: u8) -> Option<Punctuation> {
    if c == ',' as u8 {
        Some(Punctuation::Comma)
    } else if c == '=' as u8 {
        Some(Punctuation::Equals)
    } else if c == '-' as u8 {
        Some(Punctuation::Minus)
    } else if c == '+' as u8 {
        Some(Punctuation::Plus)
    } else if c == '^' as u8 {
        Some(Punctuation::Exp)
    } else if c == '_' as u8 {
        Some(Punctuation::Subscript)
    } else if c == '<' as u8 {
        Some(Punctuation::LessThan)
    } else if c == '>' as u8 {
        Some(Punctuation::MoreThan)
    } else if c == ':' as u8 {
        Some(Punctuation::Colon)
    } else if c == '|' as u8 {
        Some(Punctuation::Abs)
    } else {
        None
    }
}

/// Brackets written as one byte.
pub open spec fn single_paired(c: u8) -> Option<PairedPunct> {
    if c == '[' as u8 {
        Some(PairedPunct::Square(LeftRight::Left))
    } else if c == ']' as u8 {
        Some(PairedPunct::Square(LeftRight::Right))
    } else if c == '{' as u8 {
        Some(PairedPunct::LatexCurly(LeftRight::Left))
    } else if c == '}' as u8 {
        Some(PairedPunct::LatexCurly(LeftRight::Right))
    } else if c == '(' as u8 {
        Some(PairedPunct::Paren(LeftRight::Left))
    } else if c == ')' as u8 {
        Some(PairedPunct::Paren(LeftRight::Right))
    } else {
        None
    }
}

/// After a `.` at `j - 1`: `...`, a number such as `.5`, the element
/// accessors `.x` and `.y`, or a lone period.
pub open spec fn scan_period(s: Seq<u8>, j: int) -> Scan {
    if byte_is(s, j, '.' as u8) && byte_is(s, j + 1, '.' as u8) {
        Scan::Token { kind: TokenKind::Punct(Punctuation::Ellipses), end: j + 2 }
    } else if digit_at(s, j) {
        Scan::Token { kind: TokenKind::Number(NumberLiteral::Decimal), end: digits_end(s, j) }
    } else if byte_is(s, j, 'x' as u8) {
        Scan::Token { kind: TokenKind::Element(Element::X), end: j + 1 }
    } else if byte_is(s, j, 'y' as u8) {
        Scan::Token { kind: TokenKind::Element(Element::Y), end: j + 1 }
    } else {
        Scan::Token { kind: TokenKind::Punct(Punctuation::Period), end: j }
    }
}

/// The end of a number whose first digit is at `j - 1`: digits, then
/// optionally a `.` followed by at least one digit and the digits after it.
pub open spec fn number_end(s: Seq<u8>, j: int) -> int {
    let int_end = digits_end(s, j);
    if byte_is(s, int_end, '.' as u8) && digit_at(s, int_end + 1) {
        digits_end(s, int_end + 1)
    } else {
        int_end
    }
}

/// The end of a subscript that starts at `k`, `depth` braces deep.  A
/// subscript is one byte, or a brace group with balanced braces.  `None`
/// when the input ends first.
pub open spec fn subscript_end(s: Seq<u8>, k: int, depth: nat) -> Option<int>
    decreases s.len() - k,
{
    if !(0 <= k < s.len()) {
        None
    } else if s[k] == '{' as u8 {
        subscript_end(s, k + 1, depth + 1)
    } else if s[k] == '}' as u8 {
        if depth <= 1 {
            Some(k + 1)
        } else {
            subscript_end(s, k + 1, (depth - 1) as nat)
        }
    } else if depth == 0 {
        Some(k + 1)
    } else {
        subscript_end(s, k + 1, depth)
    }
}

/// After a letter at `j - 1`: a one-letter identifier, with a subscript when a
/// `_` follows.
pub open spec fn scan_identifier(s: Seq<u8>, j: int) -> Scan {
    if byte_is(s, j, '_' as u8) {
        match subscript_end(s, j + 1, 0) {
            Some(end) => Scan::Token { kind: TokenKind::Identifier, end },
            None => Scan::Fail {
                error: LexError::EndOfStringWhile(IDENTIFIER_SUBSCRIPT),
                end: s.len() + 1int,
            },
        }
    } else {
        Scan::Token { kind: TokenKind::Identifier, end: j }
    }
}

/// What a command word (the letters after a backslash) stands for.
#[derive(Copy, Clone)]
pub enum ValidKind {
    Token(TokenKind),
    Identifier,
    Left,
    Right,
    OperatorName,
}

pub open spec fn word(text: Seq<char>) -> Seq<u8> {
    ascii_bytes(text)
}

pub open spec fn valid_kind(w: Seq<u8>) -> ValidKind {
    if w == word(seq!['p', 'i']) {
        ValidKind::Token(TokenKind::Number(NumberLiteral::Pi))
    } else if w == word(seq!['t', 'o']) {
        ValidKind::Token(TokenKind::Punct(Punctuation::Arrow))
    } else if w == word(seq!['t', 'a', 'u']) {
        ValidKind::Token(TokenKind::Number(NumberLiteral::Tau))
    } else if w == word(seq!['l', 'e', 'f', 't']) {
        ValidKind::Left
    } else if w == word(seq!['r', 'i', 'g', 'h', 't']) {
        ValidKind::Right
    } else if w == word(seq!['l', 'e']) {
        ValidKind::Token(TokenKind::Punct(Punctuation::LessOrEqual))
    } else if w == word(seq!['g', 'e']) {
        ValidKind::Token(TokenKind::Punct(Punctuation::MoreOrEqual))
    } else if w == word(seq!['f', 'r', 'a', 'c']) {
        ValidKind::Token(TokenKind::Punct(Punctuation::Frac))
    } else if w == word(seq!['s', 'q', 'r', 't']) {
        ValidKind::Token(TokenKind::Punct(Punctuation::Sqrt))
    } else if w == word(seq!['c', 'd', 'o', 't']) {
        ValidKind::Token(TokenKind::Punct(Punctuation::Times))
    } else if w == word(seq!['t', 'i', 'm', 'e', 's']) {
        ValidKind::Token(TokenKind::Punct(Punctuation::Times))
    } else if w == word(seq!['s', 'u', 'm']) {
        ValidKind::Token(TokenKind::Punct(Punctuation::Sum))
    } else if w == word(seq!['p', 'r', 'o', 'd']) {
        ValidKind::Token(TokenKind::Punct(Punctuation::Prod))
    } else if w == word(seq!['o', 'p', 'e', 'r', 'a', 't', 'o', 'r', 'n', 'a', 'm', 'e']) {
        ValidKind::OperatorName
    } else {
        ValidKind::Identifier
    }
}

/// A built-in function's name is a built-in token; any other name is an
/// identifier.
pub open spec fn name_kind(w: Seq<u8>) -> TokenKind {
    match Builtins::named(w) {
        Some(f) => TokenKind::Builtins(f),
        None => TokenKind::Identifier,
    }
}

/// After `\left` (or `\right`, `open` false), which ends at `q`.
pub open spec fn scan_bracket(s: Seq<u8>, q: int, open: bool) -> Scan {
    let side = if open { LeftRight::Left } else { LeftRight::Right };
    match byte_at(s, q) {
        None => Scan::Fail { error: LexError::EndOfString, end: q + 1 },
        Some(c) => if c == '|' as u8 {
            Scan::Token { kind: TokenKind::Punct(Punctuation::Abs), end: q + 1 }
        } else if c == (if open { '(' } else { ')' }) as u8 {
            Scan::Token { kind: TokenKind::Paired(PairedPunct::Paren(side)), end: q + 1 }
        } else if c == (if open { '[' } else { ']' }) as u8 {
            Scan::Token { kind: TokenKind::Paired(PairedPunct::Square(side)), end: q + 1 }
        } else if c == '\\' as u8 {
            if byte_is(s, q + 1, (if open { '{' } else { '}' }) as u8) {
                Scan::Token { kind: TokenKind::Paired(PairedPunct::Curly(side)), end: q + 2 }
            } else {
                Scan::Fail {
                    error: if open { LexError::NoBraceLeft } else { LexError::NoBraceRight },
                    end: q + 1,
                }
            }
        } else {
            Scan::Fail { error: if open { LexError::NoLeft } else { LexError::NoRight }, end: q + 1 }
        },
    }
}

/// After `\operatorname`, which ends at `q`: a name in braces.
pub open spec fn scan_operator_name(s: Seq<u8>, q: int) -> Scan {
    if !byte_is(s, q, '{' as u8) {
        Scan::Fail { error: LexError::BadOperatorName, end: q }
    } else {
        let r = alpha_end(s, q + 1);
        let name = s.subrange(q + 1, r);
        if !byte_is(s, r, '}' as u8) {
            Scan::Fail { error: LexError::BadOperatorName, end: r }
        } else if name == word(seq!['f', 'o', 'r']) {
            Scan::Token { kind: TokenKind::Punct(Punctuation::For), end: r + 1 }
        } else if name == word(seq!['w', 'i', 't', 'h']) {
            Scan::Token { kind: TokenKind::Punct(Punctuation::With), end: r + 1 }
        } else {
            Scan::Token { kind: name_kind(name), end: r + 1 }
        }
    }
}

/// A command: the letters from `p` on, which follow a backslash.
pub open spec fn scan_command(s: Seq<u8>, p: int) -> Scan {
    let q = alpha_end(s, p);
    let w = s.subrange(p, q);
    match valid_kind(w) {
        ValidKind::Token(kind) => Scan::Token { kind, end: q },
        ValidKind::Identifier => Scan::Token { kind: name_kind(w), end: q },
        ValidKind::Left => scan_bracket(s, q, true),
        ValidKind::Right => scan_bracket(s, q, false),
        ValidKind::OperatorName => scan_operator_name(s, q),
    }
}

/// After a backslash at `j - 1` that is not followed by a space.
pub open spec fn scan_backslash(s: Seq<u8>, j: int) -> Scan {
    match byte_at(s, j) {
        None => Scan::Fail { error: LexError::EndOfString, end: j + 1 },
        Some(c) => if c == '{' as u8 {
            Scan::Token { kind: TokenKind::Paired(PairedPunct::Curly(LeftRight::Left)), end: j + 1 }
        } else if c == '}' as u8 {
            Scan::Token {
                kind: TokenKind::Paired(PairedPunct::Curly(LeftRight::Right)),
                end: j + 1,
            }
        } else if is_alpha(c) {
            scan_command(s, j)
        } else {
            Scan::Fail { error: LexError::UnknownSymbol, end: j + 1 }
        },
    }
}

/// Reading a token whose first byte is at `i` (after blanks).
pub open spec fn scan_at(s: Seq<u8>, i: int) -> Scan {
    match byte_at(s, i) {
        None => Scan::Fail { error: LexError::EndOfString, end: i + 1 },
        Some(c) => if c == '.' as u8 {
            scan_period(s, i + 1)
        } else if single_punct(c) is Some {
            Scan::Token { kind: TokenKind::Punct(single_punct(c)->0), end: i + 1 }
        } else if single_paired(c) is Some {
            Scan::Token { kind: TokenKind::Paired(single_paired(c)->0), end: i + 1 }
        } else if c == '\\' as u8 {
            scan_backslash(s, i + 1)
        } else if is_alpha(c) {
            scan_identifier(s, i + 1)
        } else if is_digit(c) {
            Scan::Token { kind: TokenKind::Number(NumberLiteral::Decimal), end: number_end(s, i + 1) }
        } else {
            Scan::Fail { error: LexError::UnknownByte(c), end: i + 1 }
        },
    }
}

/// One call of the lexer at position `i`: where the token starts and what is
/// read there.
pub open spec fn lex_step(s: Seq<u8>, i: int) -> (int, Scan) {
    let start = skip_blanks(s, i);
    (start, scan_at(s, start))
}

pub open spec fn token_of(start: int, end: int, kind: TokenKind) -> Token {
    Token { span: Span { from: start as usize, to: end as usize }, kind }
}

/// All tokens read from position `i` on, and the error that ended the run
/// with the index of the byte at which it was found.
pub struct LexRun {
    pub tokens: Seq<Token>,
    pub error: LexError,
    pub error_index: int,
}

pub open spec fn lex_run(s: Seq<u8>, i: int) -> LexRun
    decreases s.len() + 1 - i,
{
    let (start, scan) = lex_step(s, i);
    match scan {
        Scan::Token { kind, end } => {
            proof {
                crate::lexing::laws::lemma_step_bounds(s, i);
            }
            let rest = lex_run(s, end);
            LexRun { tokens: seq![token_of(start, end, kind)] + rest.tokens, ..rest }
        },
        Scan::Fail { error, end } => LexRun { tokens: seq![], error, error_index: end - 1 },
    }
}

} // verus!
