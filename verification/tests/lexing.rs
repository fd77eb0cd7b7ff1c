use fast_desmos2::lexing::builtins::{DyadicPervasive, ListStat, MonadicNonPervasive, MonadicPervasive};
use fast_desmos2::lexing::{
    lex, Builtins, Command, Element, LeftRight, LexError, Lexer, NumberLiteral, PairedPunct,
    Punctuation, Span, Token, TokenKind,
};

fn kinds(source: &str) -> Vec<TokenKind> {
    let (tokens, err) = lex(source);
    assert!(err.is_none(), "unexpected error on {source:?}");
    tokens.iter().map(|t| t.kind).collect()
}

fn spans(source: &str) -> Vec<(usize, usize)> {
    lex(source).0.iter().map(|t| (t.span.from, t.span.to)).collect()
}

fn error_of(source: &str) -> (usize, LexError, usize) {
    let (tokens, err) = lex(source);
    let err = err.expect("an error");
    (tokens.len(), err.error, err.index)
}

const NUM: TokenKind = TokenKind::Number(NumberLiteral::Decimal);

#[test]
fn lexes_sum_of_numbers() {
    assert_eq!(kinds("1+2"), vec![NUM, TokenKind::Punct(Punctuation::Plus), NUM]);
    assert_eq!(spans("1+2"), vec![(0, 1), (1, 2), (2, 3)]);
}

#[test]
fn lexes_decimals() {
    assert_eq!(spans("12.25"), vec![(0, 5)]);
    assert_eq!(kinds(".5"), vec![NUM]);
    assert_eq!(spans(".5"), vec![(0, 2)]);
    // A trailing point is a period of its own.
    assert_eq!(kinds("1."), vec![NUM, TokenKind::Punct(Punctuation::Period)]);
    assert_eq!(spans("1.2.3"), vec![(0, 3), (3, 5)]);
}

#[test]
fn lexes_periods_and_elements() {
    assert_eq!(kinds("..."), vec![TokenKind::Punct(Punctuation::Ellipses)]);
    assert_eq!(
        kinds("p.x.y"),
        vec![
            TokenKind::Identifier,
            TokenKind::Element(Element::X),
            TokenKind::Element(Element::Y)
        ]
    );
    assert_eq!(
        kinds(".."),
        vec![TokenKind::Punct(Punctuation::Period), TokenKind::Punct(Punctuation::Period)]
    );
}

#[test]
fn lexes_identifiers_with_subscripts() {
    assert_eq!(kinds("ab"), vec![TokenKind::Identifier, TokenKind::Identifier]);
    assert_eq!(spans("a_1"), vec![(0, 3)]);
    assert_eq!(spans("a_{12}b"), vec![(0, 6), (6, 7)]);
    assert_eq!(spans("a_{x_{1}}"), vec![(0, 9)]);
    assert_eq!(error_of("a_{1"), (0, LexError::EndOfStringWhile("identifier subscript"), 4));
    assert_eq!(error_of("a_"), (0, LexError::EndOfStringWhile("identifier subscript"), 2));
}

#[test]
fn skips_blanks() {
    assert_eq!(spans(" 1 \\ 2 "), vec![(1, 2), (5, 6)]);
    assert_eq!(kinds("   "), vec![]);
    assert_eq!(kinds(""), vec![]);
}

#[test]
fn lexes_brackets() {
    assert_eq!(
        kinds("([{}])"),
        vec![
            TokenKind::Paired(PairedPunct::Paren(LeftRight::Left)),
            TokenKind::Paired(PairedPunct::Square(LeftRight::Left)),
            TokenKind::Paired(PairedPunct::LatexCurly(LeftRight::Left)),
            TokenKind::Paired(PairedPunct::LatexCurly(LeftRight::Right)),
            TokenKind::Paired(PairedPunct::Square(LeftRight::Right)),
            TokenKind::Paired(PairedPunct::Paren(LeftRight::Right)),
        ]
    );
    assert_eq!(
        kinds("\\{\\}"),
        vec![
            TokenKind::Paired(PairedPunct::Curly(LeftRight::Left)),
            TokenKind::Paired(PairedPunct::Curly(LeftRight::Right)),
        ]
    );
    assert_eq!(
        kinds("\\left(\\right)\\left[\\right]\\left|\\right|\\left\\{\\right\\}"),
        vec![
            TokenKind::Paired(PairedPunct::Paren(LeftRight::Left)),
            TokenKind::Paired(PairedPunct::Paren(LeftRight::Right)),
            TokenKind::Paired(PairedPunct::Square(LeftRight::Left)),
            TokenKind::Paired(PairedPunct::Square(LeftRight::Right)),
            TokenKind::Punct(Punctuation::Abs),
            TokenKind::Punct(Punctuation::Abs),
            TokenKind::Paired(PairedPunct::Curly(LeftRight::Left)),
            TokenKind::Paired(PairedPunct::Curly(LeftRight::Right)),
        ]
    );
    assert_eq!(spans("\\left\\{"), vec![(0, 7)]);
}

#[test]
fn lexes_commands() {
    assert_eq!(
        kinds("\\pi\\tau"),
        vec![TokenKind::Number(NumberLiteral::Pi), TokenKind::Number(NumberLiteral::Tau)]
    );
    assert_eq!(
        kinds("\\frac{1}{2}"),
        vec![
            TokenKind::Punct(Punctuation::Frac),
            TokenKind::Paired(PairedPunct::LatexCurly(LeftRight::Left)),
            NUM,
            TokenKind::Paired(PairedPunct::LatexCurly(LeftRight::Right)),
            TokenKind::Paired(PairedPunct::LatexCurly(LeftRight::Left)),
            NUM,
            TokenKind::Paired(PairedPunct::LatexCurly(LeftRight::Right)),
        ]
    );
    assert_eq!(
        kinds("\\times\\cdot"),
        vec![TokenKind::Punct(Punctuation::Times), TokenKind::Punct(Punctuation::Times)]
    );
    assert_eq!(kinds("\\alpha"), vec![TokenKind::Identifier]);
    assert_eq!(spans("\\alpha1"), vec![(0, 6), (6, 7)]);
    assert_eq!(
        kinds("\\sin\\operatorname{total}\\operatorname{join}"),
        vec![
            TokenKind::Builtins(Builtins::MonadicPervasive(MonadicPervasive::Sin)),
            TokenKind::Builtins(Builtins::ListStat(ListStat::Total)),
            TokenKind::Builtins(Builtins::Join),
        ]
    );
    assert_eq!(
        kinds("\\operatorname{for}\\operatorname{with}\\operatorname{foo}\\operatorname{}"),
        vec![
            TokenKind::Punct(Punctuation::For),
            TokenKind::Punct(Punctuation::With),
            TokenKind::Identifier,
            TokenKind::Identifier,
        ]
    );
}

#[test]
fn reports_errors_with_their_place() {
    assert_eq!(error_of("1#"), (1, LexError::UnknownByte(b'#'), 1));
    assert_eq!(error_of("\\#"), (0, LexError::UnknownSymbol, 1));
    assert_eq!(error_of("x\\left#"), (1, LexError::NoLeft, 6));
    assert_eq!(error_of("\\left\\x"), (0, LexError::NoBraceLeft, 5));
    assert_eq!(error_of("\\right#"), (0, LexError::NoRight, 6));
    assert_eq!(error_of("\\right\\x"), (0, LexError::NoBraceRight, 6));
    assert_eq!(error_of("\\operatorname x"), (0, LexError::BadOperatorName, 12));
    assert_eq!(error_of("\\operatorname{ab"), (0, LexError::BadOperatorName, 15));
}

#[test]
fn end_of_input_is_no_error() {
    // Running out of input, even inside a command, ends the list quietly.
    let (tokens, err) = lex("1\\");
    assert_eq!(tokens.len(), 1);
    assert!(err.is_none());
    let (tokens, err) = lex("\\left");
    assert_eq!(tokens.len(), 0);
    assert!(err.is_none());
}

#[test]
fn lexer_keeps_its_place() {
    let source = "a+";
    let mut lexer = Lexer::new();
    let first = lexer.lex_one(source).unwrap();
    assert_eq!(first.kind, TokenKind::Identifier);
    assert_eq!(first.span, Span::new(0, 1));
    let second = lexer.lex_one(source).unwrap();
    assert_eq!(second.kind, TokenKind::Punct(Punctuation::Plus));
    let end = lexer.lex_one(source).unwrap_err();
    assert!(end.is_eos());
    assert_eq!(end.index, 2);
    assert_eq!(end.string, source);
    let bad = Lexer::new().lex_one("?").unwrap_err();
    assert!(!bad.is_eos());
    assert_eq!(bad.index, 0);
}

#[test]
fn token_text_and_equality() {
    let source = "  \\sqrt{x}";
    let (tokens, _) = lex(source);
    assert_eq!(tokens[0].span(source), "\\sqrt");
    assert_eq!(tokens[0].span.select(source), "\\sqrt");
    assert_eq!(tokens[0].span.len(), 5);
    // Tokens compare by kind only.
    let a = Token { span: Span::new(0, 1), kind: TokenKind::Identifier };
    let b = Token { span: Span::new(4, 5), kind: TokenKind::Identifier };
    let c = Token { span: Span::new(0, 1), kind: TokenKind::Command(Command::Rgb) };
    assert!(a == b);
    assert!(a != c);
}

#[test]
fn reference_strings_lex_back() {
    let puncts = [
        Punctuation::Period,
        Punctuation::Comma,
        Punctuation::Arrow,
        Punctuation::Equals,
        Punctuation::With,
        Punctuation::For,
        Punctuation::Frac,
        Punctuation::Sqrt,
        Punctuation::Plus,
        Punctuation::Minus,
        Punctuation::Times,
        Punctuation::Exp,
        Punctuation::Subscript,
        Punctuation::LessThan,
        Punctuation::LessOrEqual,
        Punctuation::MoreThan,
        Punctuation::MoreOrEqual,
        Punctuation::Colon,
        Punctuation::Ellipses,
        Punctuation::Sum,
        Punctuation::Prod,
        Punctuation::Abs,
    ];
    for p in puncts {
        let text = p.reference_str();
        assert_eq!(kinds(text), vec![TokenKind::Punct(p)]);
        assert_eq!(spans(text), vec![(0, text.len())]);
    }
    assert_eq!(Punctuation::Arrow.reference_str(), "\\to");
    assert_eq!(Punctuation::Times.reference_str(), "\\cdot");
    assert_eq!(Punctuation::With.reference_str(), "\\operatorname{with}");
    for side in [LeftRight::Left, LeftRight::Right] {
        for p in [
            PairedPunct::Paren(side),
            PairedPunct::Square(side),
            PairedPunct::Curly(side),
            PairedPunct::LatexCurly(side),
        ] {
            assert_eq!(kinds(p.reference_str()), vec![TokenKind::Paired(p)]);
        }
    }
    assert_eq!(PairedPunct::Curly(LeftRight::Right).reference_str(), "\\}");
}

fn all_builtins() -> Vec<Builtins> {
    let mut all = Vec::new();
    for f in [
        MonadicPervasive::Sin,
        MonadicPervasive::Cos,
        MonadicPervasive::Tan,
        MonadicPervasive::Ln,
        MonadicPervasive::Log,
        MonadicPervasive::Exp,
        MonadicPervasive::Floor,
        MonadicPervasive::Ceil,
        MonadicPervasive::Round,
        MonadicPervasive::Sign,
    ] {
        all.push(Builtins::MonadicPervasive(f));
    }
    for f in [DyadicPervasive::Mod, DyadicPervasive::Gcd, DyadicPervasive::Lcm] {
        all.push(Builtins::DyadicPervasive(f));
    }
    for f in [MonadicNonPervasive::Length, MonadicNonPervasive::Unique] {
        all.push(Builtins::MonadicNonPervasive(f));
    }
    for f in [ListStat::Mean, ListStat::Min, ListStat::Max, ListStat::Total] {
        all.push(Builtins::ListStat(f));
    }
    all.extend([Builtins::Join, Builtins::Sort, Builtins::Random]);
    all
}

#[test]
fn builtin_names_round_trip() {
    for b in all_builtins() {
        assert_eq!(Builtins::from_str(b.as_str().as_bytes()), Some(b));
        let command = format!("\\{}", b.as_str());
        assert_eq!(kinds(&command), vec![TokenKind::Builtins(b)]);
        let operator = format!("\\operatorname{{{}}}", b.as_str());
        assert_eq!(kinds(&operator), vec![TokenKind::Builtins(b)]);
    }
    assert_eq!(Builtins::ListStat(ListStat::Mean).as_str(), "mean");
    assert_eq!(ListStat::Mean.as_str(), b"mean");
    assert_eq!(MonadicNonPervasive::from_str(b"unique"), Some(MonadicNonPervasive::Unique));
    assert_eq!(ListStat::from_str(b"median"), None);
    assert_eq!(Builtins::from_str(b"random"), Some(Builtins::Random));
    assert_eq!(Builtins::from_str(b"Random"), None);
    assert_eq!(Builtins::from_str(b""), None);
}

#[test]
fn paired_constructors() {
    assert_eq!(
        TokenKind::left(PairedPunct::Paren),
        TokenKind::Paired(PairedPunct::Paren(LeftRight::Left))
    );
    assert_eq!(
        TokenKind::right(PairedPunct::Curly),
        TokenKind::Paired(PairedPunct::Curly(LeftRight::Right))
    );
}

fn is_decimal_text(t: &str) -> bool {
    let digits = |x: &str| !x.is_empty() && x.bytes().all(|b| b.is_ascii_digit());
    if let Some(rest) = t.strip_prefix('.') {
        return digits(rest);
    }
    match t.split_once('.') {
        Some((a, b)) => digits(a) && digits(b),
        None => digits(t),
    }
}

#[test]
fn decimal_tokens_are_decimal_literals() {
    for source in ["12.5+.25*3", "1.2.3", "007 .9 8.", "x_1.5"] {
        let (tokens, _) = lex(source);
        for t in tokens.iter().filter(|t| t.kind == NUM) {
            assert!(is_decimal_text(t.span(source)), "{:?}", t.span(source));
        }
    }
}

#[test]
fn gaps_between_tokens_are_blanks() {
    let source = " a \\ \\ +  \\sin 1";
    let mut lexer = Lexer::new();
    let mut place = 0;
    while let Ok(t) = lexer.lex_one(source) {
        let gap = &source[place..t.span.from];
        assert!(gap.replace("\\ ", "").bytes().all(|b| b == b' '), "{gap:?}");
        assert_ne!(source.as_bytes()[t.span.from], b' ');
        place = t.span.to;
    }
    assert!(source[place..].bytes().all(|b| b == b' '));
}

#[test]
fn tokens_cover_source_without_spaces() {
    for source in ["1 + 2.5", " a_1 = (b, c) ", "x.y...z |3|", ""] {
        let (tokens, err) = lex(source);
        assert!(err.is_none());
        let text: String = tokens.iter().map(|t| t.span(source)).collect();
        assert_eq!(text, source.replace(' ', ""));
    }
}
