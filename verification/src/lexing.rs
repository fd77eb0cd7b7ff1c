use vstd::prelude::*;
use vstd::string::StringSliceAdditionalSpecFns;
use vstd::utf8::is_char_boundary;

pub mod ascii;
pub mod builtins;
pub mod error;
pub mod grammar;
pub mod laws;
pub mod span;

pub use builtins::Builtins;
pub use error::{ContextError, LexError, LexResult, IDENTIFIER_SUBSCRIPT};
pub use span::Span;

use crate::lexing::ascii::{alpha, digit, is_alpha, is_digit};
use crate::lexing::ascii::{bytes_eq, literal_bytes};
use crate::lexing::grammar::{
    byte_at, byte_is, lex_step, name_kind, number_end, scan_at,
    scan_backslash, scan_bracket, scan_command, scan_identifier, scan_operator_name,
    scan_period, single_paired, single_punct, skip_blanks, subscript_end, token_of, valid_kind,
    word, lex_run, Scan, ValidKind,
};
use crate::lexing::laws::{lemma_alpha_run, lemma_digit_run};

verus! {

#[derive(Debug, Copy, Clone, PartialEq, Eq, Structural)]
pub enum Command {
    Polygon,
    Rgb,
    Hsv,
}

#[derive(Debug, Copy, Clone, PartialEq, Eq, Structural)]
pub enum Element {
    X,
    Y,
}

#[derive(Debug, Copy, Clone, PartialEq, Eq, Structural)]
pub enum LeftRight {
    Left,
    Right,
}

#[derive(Debug, Copy, Clone, PartialEq, Eq, Structural)]
pub enum PairedPunct {
    Paren(LeftRight),
    Square(LeftRight),
    Curly(LeftRight),
    LatexCurly(LeftRight),
}

#[derive(Debug, Copy, Clone, PartialEq, Eq, Structural)]
pub enum Punctuation {
    Period,
    Comma,
    Arrow,
    Equals,
    With,
    For,
    Frac,
    Sqrt,
    Plus,
    Minus,
    Times,
    Exp,
    Subscript,
    LessThan,
    LessOrEqual,
    MoreThan,
    MoreOrEqual,
    Colon,
    Ellipses,
    Sum,
    Prod,
    Abs,
}

/// The value of a number token.  A decimal literal's value is the number that
/// the token's text spells out; the constants are named by commands.
#[derive(Debug, Copy, Clone, PartialEq, Eq, Structural)]
pub enum NumberLiteral {
    /// Digits with at most one decimal point, as written in the token's span.
    Decimal,
    /// `\pi`
    Pi,
    /// `\tau`
    Tau,
}

/// What a token is.  A number token records which kind of number it is, not
/// its value (a decimal literal's value is spelled out by its text), so two
/// decimal number tokens are equal whatever their values.
#[derive(Debug, Copy, Clone, PartialEq, Eq, Structural)]
pub enum TokenKind {
    Number(NumberLiteral),
    Identifier,
    Paired(PairedPunct),
    Punct(Punctuation),
    Element(Element),
    Builtins(Builtins),
    Command(Command),
}

impl PairedPunct {
    /// The text that stands for this punctuation in the source.
    pub open spec fn reference_text(self) -> Seq<char> {
        match self {
            PairedPunct::Paren(LeftRight::Left) => seq!['('],
            PairedPunct::Square(LeftRight::Left) => seq!['['],
            PairedPunct::Curly(LeftRight::Left) => seq!['\\', '{'],
            PairedPunct::LatexCurly(LeftRight::Left) => seq!['{'],
            PairedPunct::Paren(LeftRight::Right) => seq![')'],
            PairedPunct::Square(LeftRight::Right) => seq![']'],
            PairedPunct::Curly(LeftRight::Right) => seq!['\\', '}'],
            PairedPunct::LatexCurly(LeftRight::Right) => seq!['}'],
        }
    }

    pub fn reference_str(&self) -> (r: &'static str)
        ensures
            r@ == self.reference_text(),
    {
        match self {
            PairedPunct::Paren(LeftRight::Left) => {
                proof {
                    reveal_strlit("(");
                }
                "("
            },
            PairedPunct::Square(LeftRight::Left) => {
                proof {
                    reveal_strlit("[");
                }
                "["
            },
            PairedPunct::Curly(LeftRight::Left) => {
                proof {
                    reveal_strlit("\\{");
                }
                "\\{"
            },
            PairedPunct::LatexCurly(LeftRight::Left) => {
                proof {
                    reveal_strlit("{");
                }
                "{"
            },
            PairedPunct::Paren(LeftRight::Right) => {
                proof {
                    reveal_strlit(")");
                }
                ")"
            },
            PairedPunct::Square(LeftRight::Right) => {
                proof {
                    reveal_strlit("]");
                }
                "]"
            },
            PairedPunct::Curly(LeftRight::Right) => {
                proof {
                    reveal_strlit("\\}");
                }
                "\\}"
            },
            PairedPunct::LatexCurly(LeftRight::Right) => {
                proof {
                    reveal_strlit("}");
                }
                "}"
            },
        }
    }
}
impl Punctuation {
    /// The text that stands for this punctuation in the source.
    pub open spec fn reference_text(self) -> Seq<char> {
        match self {
            Punctuation::Period => seq!['.'],
            Punctuation::Comma => seq![','],
            Punctuation::Arrow => seq!['\\', 't', 'o'],
            Punctuation::Equals => seq!['='],
            Punctuation::With => seq!['\\', 'o', 'p', 'e', 'r', 'a', 't', 'o', 'r', 'n', 'a', 'm', 'e', '{', 'w', 'i', 't', 'h', '}'],
            Punctuation::For => seq!['\\', 'o', 'p', 'e', 'r', 'a', 't', 'o', 'r', 'n', 'a', 'm', 'e', '{', 'f', 'o', 'r', '}'],
            Punctuation::Frac => seq!['\\', 'f', 'r', 'a', 'c'],
            Punctuation::Sqrt => seq!['\\', 's', 'q', 'r', 't'],
            Punctuation::Plus => seq!['+'],
            Punctuation::Minus => seq!['-'],
            Punctuation::Times => seq!['\\', 'c', 'd', 'o', 't'],
            Punctuation::Exp => seq!['^'],
            Punctuation::Subscript => seq!['_'],
            Punctuation::LessThan => seq!['<'],
            Punctuation::LessOrEqual => seq!['\\', 'l', 'e'],
            Punctuation::MoreThan => seq!['>'],
            Punctuation::MoreOrEqual => seq!['\\', 'g', 'e'],
            Punctuation::Colon => seq![':'],
            Punctuation::Ellipses => seq!['.', '.', '.'],
            Punctuation::Sum => seq!['\\', 's', 'u', 'm'],
            Punctuation::Prod => seq!['\\', 'p', 'r', 'o', 'd'],
            Punctuation::Abs => seq!['|'],
        }
    }

    pub fn reference_str(&self) -> (r: &'static str)
        ensures
            r@ == self.reference_text(),
    {
        match self {
            Punctuation::Period => {
                proof {
                    reveal_strlit(".");
                }
                "."
            },
            Punctuation::Comma => {
                proof {
                    reveal_strlit(",");
                }
                ","
            },
            Punctuation::Arrow => {
                proof {
                    reveal_strlit("\\to");
                }
                "\\to"
            },
            Punctuation::Equals => {
                proof {
                    reveal_strlit("=");
                }
                "="
            },
            Punctuation::With => {
                proof {
                    reveal_strlit("\\operatorname{with}");
                }
                "\\operatorname{with}"
            },
            Punctuation::For => {
                proof {
                    reveal_strlit("\\operatorname{for}");
                }
                "\\operatorname{for}"
            },
            Punctuation::Frac => {
                proof {
                    reveal_strlit("\\frac");
                }
                "\\frac"
            },
            Punctuation::Sqrt => {
                proof {
                    reveal_strlit("\\sqrt");
                }
                "\\sqrt"
            },
            Punctuation::Plus => {
                proof {
                    reveal_strlit("+");
                }
                "+"
            },
            Punctuation::Minus => {
                proof {
                    reveal_strlit("-");
                }
                "-"
            },
            Punctuation::Times => {
                proof {
                    reveal_strlit("\\cdot");
                }
                "\\cdot"
            },
            Punctuation::Exp => {
                proof {
                    reveal_strlit("^");
                }
                "^"
            },
            Punctuation::Subscript => {
                proof {
                    reveal_strlit("_");
                }
                "_"
            },
            Punctuation::LessThan => {
                proof {
                    reveal_strlit("<");
                }
                "<"
            },
            Punctuation::LessOrEqual => {
                proof {
                    reveal_strlit("\\le");
                }
                "\\le"
            },
            Punctuation::MoreThan => {
                proof {
                    reveal_strlit(">");
                }
                ">"
            },
            Punctuation::MoreOrEqual => {
                proof {
                    reveal_strlit("\\ge");
                }
                "\\ge"
            },
            Punctuation::Colon => {
                proof {
                    reveal_strlit(":");
                }
                ":"
            },
            Punctuation::Ellipses => {
                proof {
                    reveal_strlit("...");
                }
                "..."
            },
            Punctuation::Sum => {
                proof {
                    reveal_strlit("\\sum");
                }
                "\\sum"
            },
            Punctuation::Prod => {
                proof {
                    reveal_strlit("\\prod");
                }
                "\\prod"
            },
            Punctuation::Abs => {
                proof {
                    reveal_strlit("|");
                }
                "|"
            },
        }
    }
}
impl TokenKind {
    pub fn left(punct: impl FnOnce(LeftRight) -> PairedPunct) -> (r: Self)
        requires
            punct.requires((LeftRight::Left,)),
        ensures
            r matches TokenKind::Paired(p) && punct.ensures((LeftRight::Left,), p),
    {
        TokenKind::Paired(punct(LeftRight::Left))
    }

    pub fn right(punct: impl FnOnce(LeftRight) -> PairedPunct) -> (r: Self)
        requires
            punct.requires((LeftRight::Right,)),
        ensures
            r matches TokenKind::Paired(p) && punct.ensures((LeftRight::Right,), p),
    {
        TokenKind::Paired(punct(LeftRight::Right))
    }
}

/// A token: what was read, and the bytes it was read from.
#[derive(Debug, Copy, Clone)]
pub struct Token {
    pub span: Span,
    pub kind: TokenKind,
}

impl PartialEq for Token {
    /// Tokens are compared by kind; where they stand does not matter.  Two
    /// decimal number tokens are equal whatever the numbers they spell.
    fn eq(&self, other: &Self) -> (r: bool)
        ensures
            r == (self.kind == other.kind),
    {
        self.kind == other.kind
    }
}

impl vstd::std_specs::cmp::PartialEqSpecImpl for Token {
    open spec fn obeys_eq_spec() -> bool {
        true
    }

    open spec fn eq_spec(&self, other: &Self) -> bool {
        self.kind == other.kind
    }
}

impl Token {
    /// The text the token was read from.
    pub fn span<'a>(&self, source: &'a str) -> (text: &'a str)
        requires
            self.span.from <= self.span.to <= source.spec_bytes().len(),
            is_char_boundary(source.spec_bytes(), self.span.from as int),
            is_char_boundary(source.spec_bytes(), self.span.to as int),
        ensures
            text.spec_bytes() == self.span.spec_select(source.spec_bytes()),
    {
        self.span.select(source)
    }
}

/// Reads tokens one at a time from a source text, keeping its place between
/// calls.
pub struct Lexer {
    index: usize,
    this_lex_start: usize,
}

/// Whether `r` is what the scan `scan` of a token starting at `start` gives,
/// with the lexer left at `pos`.
pub open spec fn scan_result(r: LexResult<Token>, start: int, pos: int, scan: Scan) -> bool {
    match scan {
        Scan::Token { kind, end } => r == Ok::<Token, LexError>(token_of(start, end, kind)) && pos
            == end,
        Scan::Fail { error, end } => r == Err::<Token, LexError>(error) && pos == end,
    }
}

impl Lexer {
    /// The byte index at which the lexer stands.
    pub closed spec fn pos(self) -> int {
        self.index as int
    }

    /// Where the token being read (or last read) starts.
    pub closed spec fn token_start(self) -> int {
        self.this_lex_start as int
    }

    /// The lexer's place and the start of its token are byte indices: they lie
    /// in `0..=usize::MAX`.
    pub proof fn lemma_place_bounds(self)
        ensures
            0 <= self.pos() <= usize::MAX,
            0 <= self.token_start() <= usize::MAX,
    {
    }

    pub fn new() -> (lexer: Self)
        ensures
            lexer.pos() == 0,
            lexer.token_start() == 0,
    {
        Self { index: 0, this_lex_start: 0 }
    }

    fn token(&self, kind: TokenKind) -> (t: Token)
        ensures
            t == token_of(self.this_lex_start as int, self.index as int, kind),
    {
        Token { kind, span: Span::new(self.this_lex_start, self.index) }
    }

    fn this_token_span(&self) -> (span: Span)
        ensures
            span == (Span { from: self.this_lex_start, to: self.index }),
    {
        Span::new(self.this_lex_start, self.index)
    }

    /// A token whose kind is computed from the bytes of its span.
    fn token_with(&self, source: &str, with: impl FnOnce(&[u8]) -> TokenKind) -> (t: Token)
        requires
            self.this_lex_start <= self.index <= source.spec_bytes().len(),
            forall|b: &[u8]| #[trigger] with.requires((b,)),
        ensures
            t.span == self.this_token_span_spec(),
            exists|b: &[u8]|
                b@ == source.spec_bytes().subrange(self.this_lex_start as int, self.index as int)
                    && #[trigger] with.ensures((b,), t.kind),
    {
        let span = self.this_token_span();
        let bytes = source.as_bytes();
        let part = &bytes[span.from..span.to];
        Token { kind: with(part), span }
    }

    spec fn this_token_span_spec(&self) -> Span {
        Span { from: self.this_lex_start, to: self.index }
    }

    fn token_punct(&self, punctuation: Punctuation) -> (t: Token)
        ensures
            t == token_of(self.this_lex_start as int, self.index as int, TokenKind::Punct(punctuation)),
    {
        self.token(TokenKind::Punct(punctuation))
    }

    fn token_paired(&self, paired_punct: PairedPunct) -> (t: Token)
        ensures
            t == token_of(self.this_lex_start as int, self.index as int, TokenKind::Paired(paired_punct)),
    {
        self.token(TokenKind::Paired(paired_punct))
    }

    fn peek(&self, from: &str) -> (r: LexResult<u8>)
        ensures
            r == (match byte_at(from.spec_bytes(), self.index as int) {
                Some(c) => Ok::<u8, LexError>(c),
                None => Err(LexError::EndOfString),
            }),
    {
        let bytes = from.as_bytes();
        if self.index < bytes.len() {
            Ok(bytes[self.index])
        } else {
            Err(LexError::EndOfString)
        }
    }

    fn peek_next(&self, from: &str) -> (r: LexResult<u8>)
        requires
            self.index < usize::MAX,
        ensures
            r == (match byte_at(from.spec_bytes(), self.index + 1) {
                Some(c) => Ok::<u8, LexError>(c),
                None => Err(LexError::EndOfString),
            }),
    {
        let bytes = from.as_bytes();
        if self.index + 1 < bytes.len() {
            Ok(bytes[self.index + 1])
        } else {
            Err(LexError::EndOfString)
        }
    }

    fn move_by(&mut self, by: usize)
        requires
            old(self).index + by <= usize::MAX,
        ensures
            final(self).index == old(self).index + by,
            final(self).this_lex_start == old(self).this_lex_start,
    {
        self.index = self.index + by;
    }

    /// The byte at the lexer's place; the lexer moves on by one byte whether
    /// or not there was one.
    fn advance(&mut self, from: &str) -> (r: LexResult<u8>)
        requires
            old(self).index < usize::MAX,
        ensures
            r == (match byte_at(from.spec_bytes(), old(self).index as int) {
                Some(c) => Ok::<u8, LexError>(c),
                None => Err(LexError::EndOfString),
            }),
            final(self).index == old(self).index + 1,
            final(self).this_lex_start == old(self).this_lex_start,
    {
        let data = self.peek(from);
        self.move_by(1);
        data
    }

    /// Moves on by one byte if there is one and `cond` holds of it.
    fn advance_if(&mut self, from: &str, cond: impl Fn(u8) -> bool) -> (r: bool)
        requires
            old(self).index < usize::MAX,
            forall|c: u8| #[trigger] cond.requires((c,)),
        ensures
            final(self).this_lex_start == old(self).this_lex_start,
            r ==> old(self).index < from.spec_bytes().len() && cond.ensures(
                (from.spec_bytes()[old(self).index as int],),
                true,
            ) && final(self).index == old(self).index + 1,
            !r ==> (old(self).index >= from.spec_bytes().len() || cond.ensures(
                (from.spec_bytes()[old(self).index as int],),
                false,
            )) && final(self).index == old(self).index,
    {
        match self.peek(from) {
            Ok(c) => {
                let adv = cond(c);
                if adv {
                    self.move_by(1);
                }
                adv
            },
            Err(_) => false,
        }
    }

    fn advance_if_eq(&mut self, from: &str, char: u8) -> (r: bool)
        requires
            old(self).index < usize::MAX,
        ensures
            final(self).this_lex_start == old(self).this_lex_start,
            r == byte_is(from.spec_bytes(), old(self).index as int, char),
            final(self).index == old(self).index + if r { 1int } else { 0int },
    {
        self.advance_if(from, |x: u8| -> (b: bool) ensures b == (x == char) { x == char })
    }

    /// Moves on by two bytes if there are two and `cond1` holds of the first
    /// and `cond2` of the second.
    fn advance_if2(
        &mut self,
        from: &str,
        cond1: impl Fn(u8) -> bool,
        cond2: impl Fn(u8) -> bool,
    ) -> (r: bool)
        requires
            old(self).index < usize::MAX,
            from.spec_bytes().len() < usize::MAX,
            forall|c: u8| #[trigger] cond1.requires((c,)),
            forall|c: u8| #[trigger] cond2.requires((c,)),
        ensures
            final(self).this_lex_start == old(self).this_lex_start,
            ({
                let s = from.spec_bytes();
                let i = old(self).index as int;
                &&& r ==> i + 1 < s.len() && cond1.ensures((s[i],), true) && cond2.ensures(
                    (s[i + 1],),
                    true,
                ) && final(self).index == i + 2
                &&& !r ==> (i + 1 >= s.len() || cond1.ensures((s[i],), false) || cond2.ensures(
                    (s[i + 1],),
                    false,
                )) && final(self).index == i
            }),
    {
        let first = self.peek(from);
        let second = self.peek_next(from);
        match (first, second) {
            (Ok(f1), Ok(f2)) => {
                let adv = cond1(f1) && cond2(f2);
                if adv {
                    self.move_by(2);
                }
                adv
            },
            _ => false,
        }
    }

    fn advance_if_eq2(&mut self, from: &str, chars: [u8; 2]) -> (r: bool)
        requires
            old(self).index < usize::MAX,
            from.spec_bytes().len() < usize::MAX,
        ensures
            final(self).this_lex_start == old(self).this_lex_start,
            r == (byte_is(from.spec_bytes(), old(self).index as int, chars[0]) && byte_is(
                from.spec_bytes(),
                old(self).index + 1,
                chars[1],
            )),
            final(self).index == old(self).index + if r { 2int } else { 0int },
    {
        let c0 = chars[0];
        let c1 = chars[1];
        self.advance_if2(
            from,
            |x: u8| -> (b: bool) ensures b == (x == c0) { x == c0 },
            |x: u8| -> (b: bool) ensures b == (x == c1) { x == c1 },
        )
    }

    /// Moves on while there is a byte and `cond` holds of it.
    fn advance_while(&mut self, from: &str, cond: impl Fn(u8) -> bool)
        requires
            old(self).index <= from.spec_bytes().len() < usize::MAX,
            forall|c: u8| #[trigger] cond.requires((c,)),
        ensures
            final(self).this_lex_start == old(self).this_lex_start,
            old(self).index <= final(self).index <= from.spec_bytes().len(),
            forall|k: int|
                old(self).index <= k < final(self).index ==> cond.ensures(
                    (#[trigger] from.spec_bytes()[k],),
                    true,
                ),
            final(self).index < from.spec_bytes().len() ==> cond.ensures(
                (from.spec_bytes()[final(self).index as int],),
                false,
            ),
    {
        let ghost start = self.index;
        loop
            invariant_except_break
                start <= self.index <= from.spec_bytes().len() < usize::MAX,
                self.this_lex_start == old(self).this_lex_start,
                forall|c: u8| #[trigger] cond.requires((c,)),
                forall|k: int|
                    start <= k < self.index ==> cond.ensures((#[trigger] from.spec_bytes()[k],), true),
            ensures
                start <= self.index <= from.spec_bytes().len(),
                self.this_lex_start == old(self).this_lex_start,
                forall|k: int|
                    start <= k < self.index ==> cond.ensures((#[trigger] from.spec_bytes()[k],), true),
                self.index < from.spec_bytes().len() ==> cond.ensures(
                    (from.spec_bytes()[self.index as int],),
                    false,
                ),
            decreases from.spec_bytes().len() - self.index,
        {
            if !self.advance_if(from, &cond) {
                break;
            }
        }
    }
}

/// Reads all tokens of `source`, up to the first error.  Running out of input
/// ends the list without an error; any other error is handed back with the
/// tokens read before it.
pub fn lex(source: &str) -> (r: (Vec<Token>, Option<ContextError<'_, LexError>>))
    requires
        source.spec_bytes().len() < usize::MAX,
    ensures
        ({
            let run = lex_run(source.spec_bytes(), 0);
            &&& r.0@ == run.tokens
            &&& match r.1 {
                None => run.error is EndOfString,
                Some(e) => !(run.error is EndOfString) && e.error == run.error && e.index
                    == run.error_index && e.string == source,
            }
        }),
{
    let ghost s = source.spec_bytes();
    let mut lexer = Lexer::new();
    let mut result: Vec<Token> = Vec::new();
    let err: ContextError<'_, LexError>;
    loop
        invariant_except_break
            s == source.spec_bytes(),
            s.len() < usize::MAX,
            0 <= lexer.pos() <= s.len(),
            result@ + lex_run(s, lexer.pos()).tokens == lex_run(s, 0).tokens,
            lex_run(s, lexer.pos()).error == lex_run(s, 0).error,
            lex_run(s, lexer.pos()).error_index == lex_run(s, 0).error_index,
        ensures
            result@ == lex_run(s, 0).tokens,
            err.error == lex_run(s, 0).error,
            err.index == lex_run(s, 0).error_index,
            err.string == source,
        decreases s.len() + 1 - lexer.pos(),
    {
        let ghost pos = lexer.pos();
        proof {
            crate::lexing::laws::lemma_step_bounds(s, pos);
        }
        match lexer.lex_one(source) {
            Ok(token) => {
                result.push(token);
                assert(result@ + lex_run(s, lexer.pos()).tokens =~= lex_run(s, 0).tokens);
            },
            Err(e) => {
                err = e;
                break ;
            },
        }
    }
    if err.is_eos() {
        (result, None)
    } else {
        (result, Some(err))
    }
}

impl Lexer {
    /// Reads the rest of a token that starts with `.`.
    fn lex_period(&mut self, from: &str) -> (r: LexResult<Token>)
        requires
            1 <= old(self).index <= from.spec_bytes().len() < usize::MAX,
            old(self).this_lex_start == old(self).index - 1,
        ensures
            final(self).this_lex_start == old(self).this_lex_start,
            scan_result(
                r,
                old(self).this_lex_start as int,
                final(self).index as int,
                scan_period(from.spec_bytes(), old(self).index as int),
            ),
    {
        let ghost s = from.spec_bytes();
        let ghost j = self.index as int;
        if self.advance_if_eq2(from, ['.' as u8, '.' as u8]) {
            Ok(self.token_punct(Punctuation::Ellipses))
        } else if self.advance_if(from, |x: u8| -> (b: bool) ensures b == is_digit(x) { digit(x) }) {
            self.advance_while(from, |x: u8| -> (b: bool) ensures b == is_digit(x) { digit(x) });
            proof {
                lemma_digit_run(s, j, self.index as int);
            }
            Ok(self.token(TokenKind::Number(NumberLiteral::Decimal)))
        } else if self.advance_if_eq(from, 'x' as u8) {
            Ok(self.token(TokenKind::Element(Element::X)))
        } else if self.advance_if_eq(from, 'y' as u8) {
            Ok(self.token(TokenKind::Element(Element::Y)))
        } else {
            Ok(self.token_punct(Punctuation::Period))
        }
    }

    /// Reads the rest of a number whose first digit was just read.
    fn lex_number(&mut self, from: &str) -> (t: Token)
        requires
            1 <= old(self).index <= from.spec_bytes().len() < usize::MAX,
            old(self).this_lex_start == old(self).index - 1,
        ensures
            final(self).this_lex_start == old(self).this_lex_start,
            final(self).index == number_end(from.spec_bytes(), old(self).index as int),
            t == token_of(
                old(self).this_lex_start as int,
                final(self).index as int,
                TokenKind::Number(NumberLiteral::Decimal),
            ),
    {
        let ghost s = from.spec_bytes();
        let ghost j = self.index as int;
        self.advance_while(from, |x: u8| -> (b: bool) ensures b == is_digit(x) { digit(x) });
        let ghost int_end = self.index as int;
        proof {
            lemma_digit_run(s, j, int_end);
        }
        if self.advance_if2(
            from,
            |x: u8| -> (b: bool) ensures b == (x == '.' as u8) { x == '.' as u8 },
            |x: u8| -> (b: bool) ensures b == is_digit(x) { digit(x) },
        ) {
            self.advance_while(from, |x: u8| -> (b: bool) ensures b == is_digit(x) { digit(x) });
            proof {
                lemma_digit_run(s, int_end + 1, self.index as int);
            }
        }
        self.token(TokenKind::Number(NumberLiteral::Decimal))
    }

    /// Reads the rest of an identifier whose letter was just read: a
    /// subscript follows a `_`.
    fn lex_identifier(&mut self, from: &str) -> (r: LexResult<Token>)
        requires
            1 <= old(self).index <= from.spec_bytes().len() < usize::MAX,
            old(self).this_lex_start == old(self).index - 1,
        ensures
            final(self).this_lex_start == old(self).this_lex_start,
            scan_result(
                r,
                old(self).this_lex_start as int,
                final(self).index as int,
                scan_identifier(from.spec_bytes(), old(self).index as int),
            ),
    {
        let ghost s = from.spec_bytes();
        let ghost j = self.index as int;
        if self.advance_if_eq(from, '_' as u8) {
            let mut layers: usize = 0;
            loop
                invariant_except_break
                    j + 1 <= self.index <= s.len(),
                    layers <= self.index,
                    subscript_end(s, self.index as int, layers as nat) == subscript_end(s, j + 1, 0),
                invariant
                    s == from.spec_bytes(),
                    s.len() < usize::MAX,
                    j == old(self).index,
                    byte_is(s, j, '_' as u8),
                    self.this_lex_start == old(self).this_lex_start,
                ensures
                    subscript_end(s, j + 1, 0) == Some(self.index as int),
                decreases s.len() - self.index,
            {
                let c = match self.advance(from) {
                    Ok(c) => c,
                    Err(_) => {
                        return Err(LexError::EndOfStringWhile(IDENTIFIER_SUBSCRIPT));
                    },
                };
                if c == '{' as u8 {
                    layers = layers + 1;
                } else if c == '}' as u8 {
                    if layers <= 1 {
                        break ;
                    }
                    layers = layers - 1;
                } else if layers == 0 {
                    break ;
                }
            }
        }
        Ok(self.token(TokenKind::Identifier))
    }

    /// Reads `\left` or `\right` followed by a bracket, the command word
    /// having ended at the lexer's place.
    fn lex_bracket(&mut self, from: &str, open: bool) -> (r: LexResult<Token>)
        requires
            old(self).index <= from.spec_bytes().len() < usize::MAX,
        ensures
            final(self).this_lex_start == old(self).this_lex_start,
            scan_result(
                r,
                old(self).this_lex_start as int,
                final(self).index as int,
                scan_bracket(from.spec_bytes(), old(self).index as int, open),
            ),
    {
        let side = if open {
            LeftRight::Left
        } else {
            LeftRight::Right
        };
        let c = match self.advance(from) {
            Ok(c) => c,
            Err(e) => {
                return Err(e);
            },
        };
        if c == '|' as u8 {
            Ok(self.token_punct(Punctuation::Abs))
        } else if c == (if open { '(' } else { ')' }) as u8 {
            Ok(self.token_paired(PairedPunct::Paren(side)))
        } else if c == (if open { '[' } else { ']' }) as u8 {
            Ok(self.token_paired(PairedPunct::Square(side)))
        } else if c == '\\' as u8 {
            if self.advance_if_eq(from, (if open { '{' } else { '}' }) as u8) {
                Ok(self.token_paired(PairedPunct::Curly(side)))
            } else if open {
                Err(LexError::NoBraceLeft)
            } else {
                Err(LexError::NoBraceRight)
            }
        } else if open {
            Err(LexError::NoLeft)
        } else {
            Err(LexError::NoRight)
        }
    }

    /// Reads `{name}` after `\operatorname`, which ended at the lexer's place.
    fn lex_operator_name(&mut self, from: &str) -> (r: LexResult<Token>)
        requires
            old(self).this_lex_start <= old(self).index <= from.spec_bytes().len() < usize::MAX,
        ensures
            final(self).this_lex_start == old(self).this_lex_start,
            scan_result(
                r,
                old(self).this_lex_start as int,
                final(self).index as int,
                scan_operator_name(from.spec_bytes(), old(self).index as int),
            ),
    {
        let ghost s = from.spec_bytes();
        let ghost q = self.index as int;
        if !self.advance_if_eq(from, '{' as u8) {
            return Err(LexError::BadOperatorName);
        }
        let start = self.index;
        self.advance_while(from, |x: u8| -> (b: bool) ensures b == is_alpha(x) { alpha(x) });
        let end = self.index;
        proof {
            lemma_alpha_run(s, start as int, end as int);
        }
        let bytes = from.as_bytes();
        let fragment = &bytes[start..end];
        if !self.advance_if_eq(from, '}' as u8) {
            return Err(LexError::BadOperatorName);
        }
        let for_word = {
            proof {
                reveal_strlit("for");
            }
            literal_bytes("for")
        };
        assert(for_word@ == word(seq!['f', 'o', 'r']));
        let with_word = {
            proof {
                reveal_strlit("with");
            }
            literal_bytes("with")
        };
        assert(with_word@ == word(seq!['w', 'i', 't', 'h']));
        if bytes_eq(fragment, for_word) {
            Ok(self.token_punct(Punctuation::For))
        } else if bytes_eq(fragment, with_word) {
            Ok(self.token_punct(Punctuation::With))
        } else {
            Ok(self.token(kind_of_name(fragment)))
        }
    }

    /// Reads a command: the lexer stands on the first letter after a
    /// backslash.
    fn parse_post_slash(&mut self, from: &str) -> (r: LexResult<Token>)
        requires
            1 <= old(self).index < from.spec_bytes().len() < usize::MAX,
            old(self).this_lex_start == old(self).index - 1,
        ensures
            final(self).this_lex_start == old(self).this_lex_start,
            scan_result(
                r,
                old(self).this_lex_start as int,
                final(self).index as int,
                scan_command(from.spec_bytes(), old(self).index as int),
            ),
    {
        let ghost s = from.spec_bytes();
        let start_part = self.index;
        self.advance_while(from, |x: u8| -> (b: bool) ensures b == is_alpha(x) { alpha(x) });
        let end_part = self.index;
        proof {
            lemma_alpha_run(s, start_part as int, end_part as int);
        }
        let bytes = from.as_bytes();
        let part = &bytes[start_part..end_part];
        match command_kind(part) {
            ValidKind::Token(kind) => Ok(self.token(kind)),
            ValidKind::Identifier => {
                let t = self.token_with(from, kind_of_command);
                assert(s.subrange(start_part as int - 1, end_part as int).subrange(
                    1,
                    (end_part - start_part + 1) as int,
                ) =~= s.subrange(start_part as int, end_part as int));
                Ok(t)
            },
            ValidKind::Left => self.lex_bracket(from, true),
            ValidKind::Right => self.lex_bracket(from, false),
            ValidKind::OperatorName => self.lex_operator_name(from),
        }
    }

    /// Reads a token that starts with a backslash, the backslash and the
    /// byte `c` after it having been read.
    fn lex_after_backslash(&mut self, from: &str, c: u8) -> (r: LexResult<Token>)
        requires
            2 <= old(self).index <= from.spec_bytes().len() < usize::MAX,
            old(self).this_lex_start == old(self).index - 2,
            c == from.spec_bytes()[old(self).index - 1],
        ensures
            final(self).this_lex_start == old(self).this_lex_start,
            scan_result(
                r,
                old(self).this_lex_start as int,
                final(self).index as int,
                scan_backslash(from.spec_bytes(), old(self).index - 1),
            ),
    {
        if c == '{' as u8 {
            Ok(self.token_paired(PairedPunct::Curly(LeftRight::Left)))
        } else if c == '}' as u8 {
            Ok(self.token_paired(PairedPunct::Curly(LeftRight::Right)))
        } else if alpha(c) {
            self.index = self.index - 1;
            self.parse_post_slash(from)
        } else {
            Err(LexError::UnknownSymbol)
        }
    }

    /// Reads a token whose first byte `c` (not a space, not a backslash) was
    /// just read.
    fn lex_after_first(&mut self, from: &str, c: u8) -> (r: LexResult<Token>)
        requires
            1 <= old(self).index <= from.spec_bytes().len() < usize::MAX,
            old(self).this_lex_start == old(self).index - 1,
            c == from.spec_bytes()[old(self).index - 1],
            c != '\\' as u8,
        ensures
            final(self).this_lex_start == old(self).this_lex_start,
            scan_result(
                r,
                old(self).this_lex_start as int,
                final(self).index as int,
                scan_at(from.spec_bytes(), old(self).index - 1),
            ),
    {
        if c == '.' as u8 {
            self.lex_period(from)
        } else if let Some(punct) = punct_of_byte(c) {
            Ok(self.token_punct(punct))
        } else if let Some(paired) = paired_of_byte(c) {
            Ok(self.token_paired(paired))
        } else if alpha(c) {
            self.lex_identifier(from)
        } else if digit(c) {
            Ok(self.lex_number(from))
        } else {
            Err(LexError::UnknownByte(c))
        }
    }

    /// Reads one token, passing over blanks before it.
    fn lex_token(&mut self, from: &str) -> (r: LexResult<Token>)
        requires
            old(self).index < usize::MAX,
            from.spec_bytes().len() < usize::MAX,
        ensures
            final(self).this_lex_start == lex_step(from.spec_bytes(), old(self).index as int).0,
            scan_result(
                r,
                final(self).this_lex_start as int,
                final(self).index as int,
                lex_step(from.spec_bytes(), old(self).index as int).1,
            ),
    {
        let ghost s = from.spec_bytes();
        let ghost i0 = self.index as int;
        loop
            invariant
                s == from.spec_bytes(),
                s.len() < usize::MAX,
                i0 == old(self).index,
                i0 <= self.index,
                self.index <= s.len() || self.index == i0,
                self.index < usize::MAX,
                skip_blanks(s, self.index as int) == skip_blanks(s, i0),
            decreases s.len() + 1 - self.index,
        {
            self.this_lex_start = self.index;
            let c = match self.advance(from) {
                Ok(c) => c,
                Err(e) => {
                    assert(skip_blanks(s, self.this_lex_start as int) == self.this_lex_start);
                        return Err(e);
                },
            };
            if c == ' ' as u8 {
                continue ;
            }
            if c == '\\' as u8 {
                let c2 = match self.advance(from) {
                    Ok(c2) => c2,
                    Err(e) => {
                        assert(skip_blanks(s, self.this_lex_start as int) == self.this_lex_start);
                        return Err(e);
                    },
                };
                if c2 == ' ' as u8 {
                    continue ;
                }
                return self.lex_after_backslash(from, c2);
            }
            assert(skip_blanks(s, self.this_lex_start as int) == self.this_lex_start);
            return self.lex_after_first(from, c);
        }
    }

    /// Reads the next token.  On failure the error carries the source and
    /// the index of the byte at which reading failed.
    pub fn lex_one<'a>(&mut self, from: &'a str) -> (r: Result<Token, ContextError<'a, LexError>>)
        requires
            old(self).pos() < usize::MAX,
            from.spec_bytes().len() < usize::MAX,
        ensures
            ({
                let (start, scan) = lex_step(from.spec_bytes(), old(self).pos());
                &&& final(self).token_start() == start
                &&& match scan {
                    Scan::Token { kind, end } => r == Ok::<Token, ContextError<'a, LexError>>(
                        token_of(start, end, kind),
                    ) && final(self).pos() == end,
                    Scan::Fail { error, end } => r matches Err(e) && e.string == from && e.index
                        == end - 1 && e.error == error && final(self).pos() == end,
                }
            }),
    {
        let result = self.lex_token(from);
        proof {
            crate::lexing::laws::lemma_step_bounds(from.spec_bytes(), old(self).index as int);
        }
        match result {
            Ok(token) => Ok(token),
            Err(error) => Err(ContextError { string: from, index: self.index - 1, error }),
        }
    }
}

/// The punctuation written as the one byte `c`, if any.
fn punct_of_byte(c: u8) -> (r: Option<Punctuation>)
    ensures
        r == single_punct(c),
{
    if c == ',' as u8 {
        Some(Punctuation::Comma)
    } else if c == '=' as u8 {
        Some(Punctuation::Equals)
    } else if c == '-' as u8 {
        Some(Punctuation::Minus)
    } else if c == '+' as u8 {
        Some(Punctuation::Plus)
    } else if c == '^' as u8 {
        Some(Punctuation::Exp)
    } else if c == '_' as u8 {
        Some(Punctuation::Subscript)
    } else if c == '<' as u8 {
        Some(Punctuation::LessThan)
    } else if c == '>' as u8 {
        Some(Punctuation::MoreThan)
    } else if c == ':' as u8 {
        Some(Punctuation::Colon)
    } else if c == '|' as u8 {
        Some(Punctuation::Abs)
    } else {
        None
    }
}

/// The bracket written as the one byte `c`, if any.
fn paired_of_byte(c: u8) -> (r: Option<PairedPunct>)
    ensures
        r == single_paired(c),
{
    if c == '[' as u8 {
        Some(PairedPunct::Square(LeftRight::Left))
    } else if c == ']' as u8 {
        Some(PairedPunct::Square(LeftRight::Right))
    } else if c == '{' as u8 {
        Some(PairedPunct::LatexCurly(LeftRight::Left))
    } else if c == '}' as u8 {
        Some(PairedPunct::LatexCurly(LeftRight::Right))
    } else if c == '(' as u8 {
        Some(PairedPunct::Paren(LeftRight::Left))
    } else if c == ')' as u8 {
        Some(PairedPunct::Paren(LeftRight::Right))
    } else {
        None
    }
}

/// What the command word `w` stands for.
fn command_kind(w: &[u8]) -> (k: ValidKind)
    ensures
        k == valid_kind(w@),
{
    let pi = {
        proof {
            reveal_strlit("pi");
        }
        literal_bytes("pi")
    };
    assert(pi@ == word(seq!['p', 'i']));
    let to = {
        proof {
            reveal_strlit("to");
        }
        literal_bytes("to")
    };
    assert(to@ == word(seq!['t', 'o']));
    let tau = {
        proof {
            reveal_strlit("tau");
        }
        literal_bytes("tau")
    };
    assert(tau@ == word(seq!['t', 'a', 'u']));
    let left = {
        proof {
            reveal_strlit("left");
        }
        literal_bytes("left")
    };
    assert(left@ == word(seq!['l', 'e', 'f', 't']));
    let right = {
        proof {
            reveal_strlit("right");
        }
        literal_bytes("right")
    };
    assert(right@ == word(seq!['r', 'i', 'g', 'h', 't']));
    let le = {
        proof {
            reveal_strlit("le");
        }
        literal_bytes("le")
    };
    assert(le@ == word(seq!['l', 'e']));
    let ge = {
        proof {
            reveal_strlit("ge");
        }
        literal_bytes("ge")
    };
    assert(ge@ == word(seq!['g', 'e']));
    let frac = {
        proof {
            reveal_strlit("frac");
        }
        literal_bytes("frac")
    };
    assert(frac@ == word(seq!['f', 'r', 'a', 'c']));
    let sqrt = {
        proof {
            reveal_strlit("sqrt");
        }
        literal_bytes("sqrt")
    };
    assert(sqrt@ == word(seq!['s', 'q', 'r', 't']));
    let cdot = {
        proof {
            reveal_strlit("cdot");
        }
        literal_bytes("cdot")
    };
    assert(cdot@ == word(seq!['c', 'd', 'o', 't']));
    let times = {
        proof {
            reveal_strlit("times");
        }
        literal_bytes("times")
    };
    assert(times@ == word(seq!['t', 'i', 'm', 'e', 's']));
    let sum = {
        proof {
            reveal_strlit("sum");
        }
        literal_bytes("sum")
    };
    assert(sum@ == word(seq!['s', 'u', 'm']));
    let prod = {
        proof {
            reveal_strlit("prod");
        }
        literal_bytes("prod")
    };
    assert(prod@ == word(seq!['p', 'r', 'o', 'd']));
    let operatorname = {
        proof {
            reveal_strlit("operatorname");
        }
        literal_bytes("operatorname")
    };
    assert(operatorname@ == word(seq!['o', 'p', 'e', 'r', 'a', 't', 'o', 'r', 'n', 'a', 'm', 'e']));
    if bytes_eq(w, pi) {
        ValidKind::Token(TokenKind::Number(NumberLiteral::Pi))
    } else if bytes_eq(w, to) {
        ValidKind::Token(TokenKind::Punct(Punctuation::Arrow))
    } else if bytes_eq(w, tau) {
        ValidKind::Token(TokenKind::Number(NumberLiteral::Tau))
    } else if bytes_eq(w, left) {
        ValidKind::Left
    } else if bytes_eq(w, right) {
        ValidKind::Right
    } else if bytes_eq(w, le) {
        ValidKind::Token(TokenKind::Punct(Punctuation::LessOrEqual))
    } else if bytes_eq(w, ge) {
        ValidKind::Token(TokenKind::Punct(Punctuation::MoreOrEqual))
    } else if bytes_eq(w, frac) {
        ValidKind::Token(TokenKind::Punct(Punctuation::Frac))
    } else if bytes_eq(w, sqrt) {
        ValidKind::Token(TokenKind::Punct(Punctuation::Sqrt))
    } else if bytes_eq(w, cdot) {
        ValidKind::Token(TokenKind::Punct(Punctuation::Times))
    } else if bytes_eq(w, times) {
        ValidKind::Token(TokenKind::Punct(Punctuation::Times))
    } else if bytes_eq(w, sum) {
        ValidKind::Token(TokenKind::Punct(Punctuation::Sum))
    } else if bytes_eq(w, prod) {
        ValidKind::Token(TokenKind::Punct(Punctuation::Prod))
    } else if bytes_eq(w, operatorname) {
        ValidKind::OperatorName
    } else {
        ValidKind::Identifier
    }
}

/// The kind of token that a command stands for, from the bytes of its span:
/// a backslash and the command's name.
fn kind_of_command(span: &[u8]) -> (k: TokenKind)
    ensures
        span@.len() > 0 ==> k == name_kind(span@.subrange(1, span@.len() as int)),
{
    if span.len() > 0 {
        kind_of_name(&span[1..span.len()])
    } else {
        TokenKind::Identifier
    }
}

/// The kind of token that a name stands for: a built-in function or an
/// identifier.
fn kind_of_name(name: &[u8]) -> (k: TokenKind)
    ensures
        k == name_kind(name@),
{
    match Builtins::from_str(name) {
        Some(f) => TokenKind::Builtins(f),
        None => TokenKind::Identifier,
    }
}

} // verus!
