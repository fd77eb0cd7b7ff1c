//! Facts about the grammar, and the laws of the lexer.
use vstd::prelude::*;

use crate::lexing::ascii::{ascii_bytes, is_alpha, is_digit};
use crate::lexing::builtins::{
    lemma_builtin_name_letters, lemma_builtin_name_lookup, Builtins, MonadicPervasive,
};
use crate::lexing::error::{LexError, IDENTIFIER_SUBSCRIPT};
use crate::lexing::grammar::{
    alpha_at, alpha_end, byte_is, digit_at, digits_end, lex_run, lex_step, name_kind, scan_at,
    scan_command, skip_blanks, subscript_end, token_of, valid_kind, word, LexRun, Scan, ValidKind,
};
use crate::lexing::{LeftRight, NumberLiteral, PairedPunct, Punctuation, Token, TokenKind};

verus! {

pub proof fn lemma_digits_end_bounds(s: Seq<u8>, i: int)
    ensures
        i <= digits_end(s, i),
        0 <= i <= s.len() ==> digits_end(s, i) <= s.len(),
        forall|k: int| i <= k < digits_end(s, i) ==> digit_at(s, k),
        !digit_at(s, digits_end(s, i)),
    decreases s.len() - i,
{
    if digit_at(s, i) {
        lemma_digits_end_bounds(s, i + 1);
    }
}

pub proof fn lemma_alpha_end_bounds(s: Seq<u8>, i: int)
    ensures
        i <= alpha_end(s, i),
        0 <= i <= s.len() ==> alpha_end(s, i) <= s.len(),
        forall|k: int| i <= k < alpha_end(s, i) ==> alpha_at(s, k),
        !alpha_at(s, alpha_end(s, i)),
    decreases s.len() - i,
{
    if alpha_at(s, i) {
        lemma_alpha_end_bounds(s, i + 1);
    }
}

pub proof fn lemma_skip_blanks_bounds(s: Seq<u8>, i: int)
    ensures
        i <= skip_blanks(s, i),
        0 <= i <= s.len() ==> skip_blanks(s, i) <= s.len(),
    decreases s.len() - i,
{
    if byte_is(s, i, ' ' as u8) {
        lemma_skip_blanks_bounds(s, i + 1);
    } else if byte_is(s, i, '\\' as u8) && byte_is(s, i + 1, ' ' as u8) {
        lemma_skip_blanks_bounds(s, i + 2);
    }
}

pub proof fn lemma_subscript_end_bounds(s: Seq<u8>, k: int, depth: nat)
    ensures
        subscript_end(s, k, depth) matches Some(e) ==> k < e <= s.len(),
    decreases s.len() - k,
{
    if 0 <= k < s.len() {
        if s[k] == '{' as u8 {
            lemma_subscript_end_bounds(s, k + 1, depth + 1);
        } else if s[k] == '}' as u8 {
            if depth > 1 {
                lemma_subscript_end_bounds(s, k + 1, (depth - 1) as nat);
            }
        } else if depth != 0 {
            lemma_subscript_end_bounds(s, k + 1, depth);
        }
    }
}

/// A token read at `i` starts at or after `i`, is not empty, and lies inside
/// the source.
pub proof fn lemma_step_bounds(s: Seq<u8>, i: int)
    ensures
        i <= lex_step(s, i).0,
        lex_step(s, i).1 matches Scan::Token { end, .. } ==> lex_step(s, i).0 < end <= s.len(),
        lex_step(s, i).1 matches Scan::Fail { end, .. } ==> lex_step(s, i).0 < end,
{
    let start = skip_blanks(s, i);
    lemma_skip_blanks_bounds(s, i);
    lemma_scan_bounds(s, start);
}

/// A token read at `i` ends after `i` and inside the source; a failed read
/// leaves the lexer after `i` too.
pub proof fn lemma_scan_bounds(s: Seq<u8>, i: int)
    ensures
        scan_at(s, i) matches Scan::Token { end, .. } ==> i < end <= s.len(),
        scan_at(s, i) matches Scan::Fail { end, .. } ==> i < end,
{
    lemma_digits_end_bounds(s, i + 1);
    lemma_digits_end_bounds(s, digits_end(s, i + 1) + 1);
    lemma_subscript_end_bounds(s, i + 2, 0);
    lemma_alpha_end_bounds(s, i + 2);
    let q = alpha_end(s, i + 2);
    lemma_alpha_end_bounds(s, q + 1);
}

/// A run of digits found by scanning ends where `digits_end` says.
pub proof fn lemma_digit_run(s: Seq<u8>, i: int, e: int)
    requires
        0 <= i <= e <= s.len(),
        forall|k: int| i <= k < e ==> is_digit(#[trigger] s[k]),
        e < s.len() ==> !is_digit(s[e]),
    ensures
        e == digits_end(s, i),
    decreases e - i,
{
    if i < e {
        lemma_digit_run(s, i + 1, e);
    }
}

/// A run of letters found by scanning ends where `alpha_end` says.
pub proof fn lemma_alpha_run(s: Seq<u8>, i: int, e: int)
    requires
        0 <= i <= e <= s.len(),
        forall|k: int| i <= k < e ==> is_alpha(#[trigger] s[k]),
        e < s.len() ==> !is_alpha(s[e]),
    ensures
        e == alpha_end(s, i),
    decreases e - i,
{
    if i < e {
        lemma_alpha_run(s, i + 1, e);
    }
}

/// A source that is read as one token and nothing else.
proof fn lemma_lex_whole(s: Seq<u8>, kind: TokenKind)
    requires
        lex_step(s, 0) == (0int, Scan::Token { kind, end: s.len() as int }),
    ensures
        lex_run(s, 0) == (LexRun {
            tokens: seq![token_of(0, s.len() as int, kind)],
            error: LexError::EndOfString,
            error_index: s.len() as int,
        }),
{
    assert(skip_blanks(s, s.len() as int) == s.len());
    assert(lex_run(s, s.len() as int).tokens =~= seq![]);
    assert(lex_run(s, 0).tokens =~= seq![token_of(0, s.len() as int, kind)]);
}

/// A backslash followed by letters is read as a command whose word is all
/// of the letters.
proof fn lemma_command_text(s: Seq<u8>)
    requires
        s.len() >= 2,
        s[0] == '\\' as u8,
        forall|k: int| 1 <= k < s.len() ==> is_alpha(#[trigger] s[k]),
    ensures
        skip_blanks(s, 0) == 0,
        lex_step(s, 0) == (0int, scan_command(s, 1)),
        alpha_end(s, 1) == s.len(),
{
    lemma_alpha_run(s, 1, s.len() as int);
}

/// The first two bytes and the length of each command word; enough to tell
/// the words apart from each other and from other names.
pub proof fn lemma_command_word_heads()
    ensures
        word(seq!['p', 'i']).len() == 2 && word(seq!['p', 'i'])[0] == 'p' as u8 && word(seq!['p', 'i'])[1] == 'i' as u8,
        word(seq!['t', 'o']).len() == 2 && word(seq!['t', 'o'])[0] == 't' as u8 && word(seq!['t', 'o'])[1] == 'o' as u8,
        word(seq!['t', 'a', 'u']).len() == 3 && word(seq!['t', 'a', 'u'])[0] == 't' as u8 && word(seq!['t', 'a', 'u'])[1] == 'a' as u8 && word(seq!['t', 'a', 'u'])[2] == 'u' as u8,
        word(seq!['l', 'e', 'f', 't']).len() == 4 && word(seq!['l', 'e', 'f', 't'])[0] == 'l' as u8 && word(seq!['l', 'e', 'f', 't'])[1] == 'e' as u8,
        word(seq!['r', 'i', 'g', 'h', 't']).len() == 5 && word(seq!['r', 'i', 'g', 'h', 't'])[0] == 'r' as u8 && word(seq!['r', 'i', 'g', 'h', 't'])[1] == 'i' as u8,
        word(seq!['l', 'e']).len() == 2 && word(seq!['l', 'e'])[0] == 'l' as u8 && word(seq!['l', 'e'])[1] == 'e' as u8,
        word(seq!['g', 'e']).len() == 2 && word(seq!['g', 'e'])[0] == 'g' as u8 && word(seq!['g', 'e'])[1] == 'e' as u8,
        word(seq!['f', 'r', 'a', 'c']).len() == 4 && word(seq!['f', 'r', 'a', 'c'])[0] == 'f' as u8 && word(seq!['f', 'r', 'a', 'c'])[1] == 'r' as u8,
        word(seq!['s', 'q', 'r', 't']).len() == 4 && word(seq!['s', 'q', 'r', 't'])[0] == 's' as u8 && word(seq!['s', 'q', 'r', 't'])[1] == 'q' as u8,
        word(seq!['c', 'd', 'o', 't']).len() == 4 && word(seq!['c', 'd', 'o', 't'])[0] == 'c' as u8 && word(seq!['c', 'd', 'o', 't'])[1] == 'd' as u8,
        word(seq!['t', 'i', 'm', 'e', 's']).len() == 5 && word(seq!['t', 'i', 'm', 'e', 's'])[0] == 't' as u8 && word(seq!['t', 'i', 'm', 'e', 's'])[1] == 'i' as u8,
        word(seq!['s', 'u', 'm']).len() == 3 && word(seq!['s', 'u', 'm'])[0] == 's' as u8 && word(seq!['s', 'u', 'm'])[1] == 'u' as u8,
        word(seq!['p', 'r', 'o', 'd']).len() == 4 && word(seq!['p', 'r', 'o', 'd'])[0] == 'p' as u8 && word(seq!['p', 'r', 'o', 'd'])[1] == 'r' as u8,
        word(seq!['o', 'p', 'e', 'r', 'a', 't', 'o', 'r', 'n', 'a', 'm', 'e']).len() == 12 && word(seq!['o', 'p', 'e', 'r', 'a', 't', 'o', 'r', 'n', 'a', 'm', 'e'])[0] == 'o' as u8 && word(seq!['o', 'p', 'e', 'r', 'a', 't', 'o', 'r', 'n', 'a', 'm', 'e'])[1] == 'p' as u8,
{
}

/// Lexing the reference text of a punctuation gives that punctuation, as
/// one token spanning the whole text, and nothing else.
pub proof fn lemma_punctuation_reference_lexes(p: Punctuation)
    ensures
        ({
            let s = ascii_bytes(p.reference_text());
            lex_run(s, 0) == (LexRun {
                tokens: seq![token_of(0, s.len() as int, TokenKind::Punct(p))],
                error: LexError::EndOfString,
                error_index: s.len() as int,
            })
        }),
{
    let s = ascii_bytes(p.reference_text());
    match p {
        Punctuation::Period => {
            lemma_lex_whole(s, TokenKind::Punct(p));
        },
        Punctuation::Comma => {
            lemma_lex_whole(s, TokenKind::Punct(p));
        },
        Punctuation::Arrow => {
            lemma_command_text(s);
            lemma_command_word_heads();
            assert(s.subrange(1, 3) =~= word(seq!['t', 'o']));
            lemma_lex_whole(s, TokenKind::Punct(p));
        },
        Punctuation::Equals => {
            lemma_lex_whole(s, TokenKind::Punct(p));
        },
        Punctuation::With => {
            lemma_alpha_run(s, 1, 13);
            assert(s.subrange(1, 13) =~= word(seq!['o', 'p', 'e', 'r', 'a', 't', 'o', 'r', 'n', 'a', 'm', 'e']));
            lemma_alpha_run(s, 14, 18);
            assert(s.subrange(14, 18) =~= word(seq!['w', 'i', 't', 'h']));
            lemma_lex_whole(s, TokenKind::Punct(p));
        },
        Punctuation::For => {
            lemma_alpha_run(s, 1, 13);
            assert(s.subrange(1, 13) =~= word(seq!['o', 'p', 'e', 'r', 'a', 't', 'o', 'r', 'n', 'a', 'm', 'e']));
            lemma_alpha_run(s, 14, 17);
            assert(s.subrange(14, 17) =~= word(seq!['f', 'o', 'r']));
            lemma_lex_whole(s, TokenKind::Punct(p));
        },
        Punctuation::Frac => {
            lemma_command_text(s);
            lemma_command_word_heads();
            assert(s.subrange(1, 5) =~= word(seq!['f', 'r', 'a', 'c']));
            lemma_lex_whole(s, TokenKind::Punct(p));
        },
        Punctuation::Sqrt => {
            lemma_command_text(s);
            lemma_command_word_heads();
            assert(s.subrange(1, 5) =~= word(seq!['s', 'q', 'r', 't']));
            lemma_lex_whole(s, TokenKind::Punct(p));
        },
        Punctuation::Plus => {
            lemma_lex_whole(s, TokenKind::Punct(p));
        },
        Punctuation::Minus => {
            lemma_lex_whole(s, TokenKind::Punct(p));
        },
        Punctuation::Times => {
            lemma_command_text(s);
            lemma_command_word_heads();
            assert(s.subrange(1, 5) =~= word(seq!['c', 'd', 'o', 't']));
            lemma_lex_whole(s, TokenKind::Punct(p));
        },
        Punctuation::Exp => {
            lemma_lex_whole(s, TokenKind::Punct(p));
        },
        Punctuation::Subscript => {
            lemma_lex_whole(s, TokenKind::Punct(p));
        },
        Punctuation::LessThan => {
            lemma_lex_whole(s, TokenKind::Punct(p));
        },
        Punctuation::LessOrEqual => {
            lemma_command_text(s);
            lemma_command_word_heads();
            assert(s.subrange(1, 3) =~= word(seq!['l', 'e']));
            lemma_lex_whole(s, TokenKind::Punct(p));
        },
        Punctuation::MoreThan => {
            lemma_lex_whole(s, TokenKind::Punct(p));
        },
        Punctuation::MoreOrEqual => {
            lemma_command_text(s);
            lemma_command_word_heads();
            assert(s.subrange(1, 3) =~= word(seq!['g', 'e']));
            lemma_lex_whole(s, TokenKind::Punct(p));
        },
        Punctuation::Colon => {
            lemma_lex_whole(s, TokenKind::Punct(p));
        },
        Punctuation::Ellipses => {
            lemma_lex_whole(s, TokenKind::Punct(p));
        },
        Punctuation::Sum => {
            lemma_command_text(s);
            lemma_command_word_heads();
            assert(s.subrange(1, 4) =~= word(seq!['s', 'u', 'm']));
            lemma_lex_whole(s, TokenKind::Punct(p));
        },
        Punctuation::Prod => {
            lemma_command_text(s);
            lemma_command_word_heads();
            assert(s.subrange(1, 5) =~= word(seq!['p', 'r', 'o', 'd']));
            lemma_lex_whole(s, TokenKind::Punct(p));
        },
        Punctuation::Abs => {
            lemma_lex_whole(s, TokenKind::Punct(p));
        },
    }
}

/// Lexing the reference text of a bracket gives that bracket, as one token
/// spanning the whole text, and nothing else.
pub proof fn lemma_paired_reference_lexes(p: PairedPunct)
    ensures
        ({
            let s = ascii_bytes(p.reference_text());
            lex_run(s, 0) == (LexRun {
                tokens: seq![token_of(0, s.len() as int, TokenKind::Paired(p))],
                error: LexError::EndOfString,
                error_index: s.len() as int,
            })
        }),
{
    let s = ascii_bytes(p.reference_text());
    match p {
        PairedPunct::Paren(LeftRight::Left) => {
            lemma_lex_whole(s, TokenKind::Paired(p));
        },
        PairedPunct::Square(LeftRight::Left) => {
            lemma_lex_whole(s, TokenKind::Paired(p));
        },
        PairedPunct::Curly(LeftRight::Left) => {
            lemma_lex_whole(s, TokenKind::Paired(p));
        },
        PairedPunct::LatexCurly(LeftRight::Left) => {
            lemma_lex_whole(s, TokenKind::Paired(p));
        },
        PairedPunct::Paren(LeftRight::Right) => {
            lemma_lex_whole(s, TokenKind::Paired(p));
        },
        PairedPunct::Square(LeftRight::Right) => {
            lemma_lex_whole(s, TokenKind::Paired(p));
        },
        PairedPunct::Curly(LeftRight::Right) => {
            lemma_lex_whole(s, TokenKind::Paired(p));
        },
        PairedPunct::LatexCurly(LeftRight::Right) => {
            lemma_lex_whole(s, TokenKind::Paired(p));
        },
    }
}

/// No built-in function is named like a command word, so a backslash and a
/// built-in's name is read as that built-in.
proof fn lemma_builtin_not_command_word(b: Builtins)
    ensures
        valid_kind(ascii_bytes(b.name())) == ValidKind::Identifier,
        ascii_bytes(b.name()) != word(seq!['f', 'o', 'r']),
        ascii_bytes(b.name()) != word(seq!['w', 'i', 't', 'h']),
{
    lemma_command_word_heads();
    let w = ascii_bytes(b.name());
    assert(word(seq!['f', 'o', 'r']).len() == 3 && word(seq!['f', 'o', 'r'])[0] == 'f' as u8);
    assert(word(seq!['w', 'i', 't', 'h']).len() == 4 && word(seq!['w', 'i', 't', 'h'])[0]
        == 'w' as u8);
    lemma_builtin_name_letters(b);
    assert(w.len() >= 2);
    let (l, c0, c1, c2) = (w.len(), w[0], w[1], w[2]);
    match b {
        Builtins::MonadicPervasive(f) => match f {
            MonadicPervasive::Tan => assert(c2 == 'n' as u8),
            _ => {},
        },
        Builtins::DyadicPervasive(f) => {},
        Builtins::MonadicNonPervasive(f) => {},
        Builtins::ListStat(f) => {},
        _ => {},
    }
}

/// A backslash followed by the name of a built-in function is read as that
/// built-in function, as one token spanning the whole text.
pub proof fn lemma_builtin_command_lexes(b: Builtins)
    ensures
        ({
            let s = ascii_bytes(seq!['\\'] + b.name());
            lex_run(s, 0) == (LexRun {
                tokens: seq![token_of(0, s.len() as int, TokenKind::Builtins(b))],
                error: LexError::EndOfString,
                error_index: s.len() as int,
            })
        }),
{
    let name = ascii_bytes(b.name());
    let s = ascii_bytes(seq!['\\'] + b.name());
    lemma_builtin_name_letters(b);
    assert(s =~= seq!['\\' as u8] + name);
    assert(s.subrange(1, s.len() as int) =~= name);
    lemma_command_text(s);
    lemma_builtin_not_command_word(b);
    lemma_builtin_name_lookup(b);
    lemma_lex_whole(s, TokenKind::Builtins(b));
}

/// `\operatorname{name}` with the name of a built-in function is read as that
/// built-in function, as one token spanning the whole text.
pub proof fn lemma_builtin_operator_name_lexes(b: Builtins)
    ensures
        ({
            let s = ascii_bytes(
                seq!['\\', 'o', 'p', 'e', 'r', 'a', 't', 'o', 'r', 'n', 'a', 'm', 'e', '{']
                    + b.name() + seq!['}'],
            );
            lex_run(s, 0) == (LexRun {
                tokens: seq![token_of(0, s.len() as int, TokenKind::Builtins(b))],
                error: LexError::EndOfString,
                error_index: s.len() as int,
            })
        }),
{
    let prefix = seq!['\\', 'o', 'p', 'e', 'r', 'a', 't', 'o', 'r', 'n', 'a', 'm', 'e', '{'];
    let name = ascii_bytes(b.name());
    let n = name.len() as int;
    let s = ascii_bytes(prefix + b.name() + seq!['}']);
    lemma_builtin_name_letters(b);
    assert(s =~= ascii_bytes(prefix) + name + seq!['}' as u8]);
    assert(s.len() == n + 15);
    assert(forall|k: int| 14 <= k < 14 + n ==> s[k] == name[k - 14]);
    lemma_alpha_run(s, 1, 13);
    lemma_command_word_heads();
    assert(s.subrange(1, 13) =~= word(
        seq!['o', 'p', 'e', 'r', 'a', 't', 'o', 'r', 'n', 'a', 'm', 'e'],
    ));
    lemma_alpha_run(s, 14, 14 + n);
    assert(s.subrange(14, 14 + n) =~= name);
    lemma_builtin_not_command_word(b);
    lemma_builtin_name_lookup(b);
    lemma_lex_whole(s, TokenKind::Builtins(b));
}

/// The tokens read from position `i` on lie inside the source, in order: each
/// covers at least one byte, and each ends at or before the start of every
/// later one.
pub proof fn lemma_lex_spans_ordered(s: Seq<u8>, i: int)
    requires
        0 <= i,
        s.len() <= usize::MAX,
    ensures
        ({
            let t = lex_run(s, i).tokens;
            &&& forall|k: int|
                0 <= k < t.len() ==> i <= (#[trigger] t[k]).span.from < t[k].span.to <= s.len()
            &&& forall|j: int, k: int|
                0 <= j < k < t.len() ==> (#[trigger] t[j]).span.to <= (#[trigger] t[k]).span.from
        }),
    decreases s.len() + 1 - i,
{
    lemma_step_bounds(s, i);
    let (start, scan) = lex_step(s, i);
    if let Scan::Token { kind, end } = scan {
        lemma_lex_spans_ordered(s, end);
        let rest = lex_run(s, end).tokens;
        let t = lex_run(s, i).tokens;
        assert(t =~= seq![token_of(start, end, kind)] + rest);
        assert forall|k: int| 0 <= k < t.len() implies i <= (#[trigger] t[k]).span.from
            < t[k].span.to <= s.len() by {
            if k > 0 {
                assert(t[k] == rest[k - 1]);
            }
        }
        assert forall|j: int, k: int| 0 <= j < k < t.len() implies (#[trigger] t[j]).span.to
            <= (#[trigger] t[k]).span.from by {
            assert(t[k] == rest[k - 1]);
            if j > 0 {
                assert(t[j] == rest[j - 1]);
            }
        }
    }
}

/// A scan fails for want of input only at or past the end of the source.
proof fn lemma_scan_end_of_string(s: Seq<u8>, i: int)
    requires
        0 <= i,
    ensures
        scan_at(s, i) matches Scan::Fail { error, end } ==> (error is EndOfString ==> end - 1
            >= s.len()),
{
    lemma_alpha_end_bounds(s, i + 2);
}

/// The lexer reports running out of input only when it has read the source
/// to its end: a run that ends without an error has read every byte.
pub proof fn lemma_end_of_string_at_end(s: Seq<u8>, i: int)
    requires
        0 <= i,
    ensures
        lex_run(s, i).error is EndOfString ==> lex_run(s, i).error_index >= s.len(),
    decreases s.len() + 1 - i,
{
    lemma_step_bounds(s, i);
    let (start, scan) = lex_step(s, i);
    lemma_scan_end_of_string(s, start);
    if let Scan::Token { kind, end } = scan {
        lemma_end_of_string_at_end(s, end);
    }
}

/// `s[i..j]` consists of spaces and backslash-space pairs only.
pub open spec fn is_blank_run(s: Seq<u8>, i: int, j: int) -> bool
    decreases j - i,
{
    if i >= j {
        i == j
    } else if s[i] == ' ' as u8 {
        is_blank_run(s, i + 1, j)
    } else if i + 1 < j && s[i] == '\\' as u8 && s[i + 1] == ' ' as u8 {
        is_blank_run(s, i + 2, j)
    } else {
        false
    }
}

/// Within one call of the lexer, the bytes between the lexer's place and the
/// start of what it reads are blanks (spaces and backslash-space pairs), and
/// what it reads does not start with a blank.
pub proof fn lemma_lex_step_gap(s: Seq<u8>, i: int)
    requires
        0 <= i <= s.len(),
    ensures
        ({
            let start = lex_step(s, i).0;
            &&& i <= start <= s.len()
            &&& is_blank_run(s, i, start)
            &&& start < s.len() ==> s[start] != ' ' as u8 && !(s[start] == '\\' as u8
                && byte_is(s, start + 1, ' ' as u8))
        }),
    decreases s.len() - i,
{
    lemma_skip_blanks_bounds(s, i);
    if byte_is(s, i, ' ' as u8) {
        lemma_lex_step_gap(s, i + 1);
    } else if byte_is(s, i, '\\' as u8) && byte_is(s, i + 1, ' ' as u8) {
        lemma_lex_step_gap(s, i + 2);
    }
}

/// When only spaces are left, the lexer reports running out of input at the
/// end of the source.
pub proof fn lemma_only_spaces_left(s: Seq<u8>, i: int)
    requires
        0 <= i <= s.len(),
        forall|k: int| i <= k < s.len() ==> s[k] == ' ' as u8,
    ensures
        lex_step(s, i) == (s.len() as int, Scan::Fail {
            error: LexError::EndOfString,
            end: s.len() + 1int,
        }),
    decreases s.len() - i,
{
    if i < s.len() {
        lemma_only_spaces_left(s, i + 1);
    }
}

/// A backslash followed by letters that make no command word is read as the
/// built-in function named by the whole run of letters, or else as an
/// identifier; the token spans the backslash and the letters.
pub proof fn lemma_command_name_token(s: Seq<u8>, i: int)
    requires
        0 <= i,
        i + 1 < s.len(),
        s[i] == '\\' as u8,
        is_alpha(s[i + 1]),
        valid_kind(s.subrange(i + 1, alpha_end(s, i + 1))) == ValidKind::Identifier,
    ensures
        ({
            let k = alpha_end(s, i + 1);
            &&& i + 1 < k <= s.len()
            &&& forall|m: int| i + 1 <= m < k ==> is_alpha(#[trigger] s[m])
            &&& k < s.len() ==> !is_alpha(s[k])
            &&& lex_step(s, i) == (i, Scan::Token {
                kind: name_kind(s.subrange(i + 1, k)),
                end: k,
            })
        }),
{
    lemma_alpha_end_bounds(s, i + 1);
    let k = alpha_end(s, i + 1);
    assert forall|m: int| i + 1 <= m < k implies is_alpha(#[trigger] s[m]) by {
        assert(alpha_at(s, m));
    }
}

/// The lexer's run is its calls one after another: a token read at `i` is
/// followed by the run from where that token ends; a failure ends the run,
/// its error found at the byte before the lexer's new place.
pub proof fn lemma_lex_run_steps(s: Seq<u8>, i: int)
    ensures
        ({
            let (start, scan) = lex_step(s, i);
            let run = lex_run(s, i);
            match scan {
                Scan::Token { kind, end } => {
                    &&& run.tokens == seq![token_of(start, end, kind)] + lex_run(s, end).tokens
                    &&& run.error == lex_run(s, end).error
                    &&& run.error_index == lex_run(s, end).error_index
                },
                Scan::Fail { error, end } => {
                    &&& run.tokens == Seq::<Token>::empty()
                    &&& run.error == error
                    &&& run.error_index == end - 1
                },
            }
        }),
{
}

/// A run of ASCII digits, at least one.
pub open spec fn all_digits(t: Seq<u8>) -> bool {
    t.len() > 0 && forall|k: int| 0 <= k < t.len() ==> is_digit(#[trigger] t[k])
}

/// The text of a decimal literal: digits with an optional fraction
/// (`[0-9]+(\.[0-9]+)?`), or a point followed by digits (`\.[0-9]+`).
pub open spec fn is_decimal_text(t: Seq<u8>) -> bool {
    ||| all_digits(t)
    ||| exists|p: int|
        0 < p < t.len() && all_digits(#[trigger] t.subrange(0, p)) && t[p] == '.' as u8
            && all_digits(t.subrange(p + 1, t.len() as int))
    ||| t.len() > 1 && t[0] == '.' as u8 && all_digits(t.subrange(1, t.len() as int))
}

/// A decimal number token's text is a decimal literal.
pub proof fn lemma_decimal_token_text(s: Seq<u8>, i: int)
    ensures
        lex_step(s, i).1 matches Scan::Token { kind, end } ==> (kind == TokenKind::Number(
            NumberLiteral::Decimal,
        ) ==> is_decimal_text(s.subrange(lex_step(s, i).0, end))),
{
    let start = skip_blanks(s, i);
    if let Scan::Token { kind, end } = scan_at(s, start) {
        if kind == TokenKind::Number(NumberLiteral::Decimal) && 0 <= start < s.len() {
            lemma_scan_bounds(s, start);
            let t = s.subrange(start, end);
            lemma_digits_end_bounds(s, start + 1);
            if s[start] == '.' as u8 {
                let f = t.subrange(1, t.len() as int);
                assert forall|k: int| 0 <= k < f.len() implies is_digit(#[trigger] f[k]) by {
                    assert(f[k] == s[start + 1 + k]);
                    assert(digit_at(s, start + 1 + k));
                }
            } else {
                let e1 = digits_end(s, start + 1);
                lemma_digits_end_bounds(s, e1 + 1);
                if byte_is(s, e1, '.' as u8) && digit_at(s, e1 + 1) {
                    let p = e1 - start;
                    let a = t.subrange(0, p);
                    let b = t.subrange(p + 1, t.len() as int);
                    assert forall|k: int| 0 <= k < a.len() implies is_digit(#[trigger] a[k]) by {
                        if k > 0 {
                            assert(digit_at(s, start + k));
                        }
                    }
                    assert forall|k: int| 0 <= k < b.len() implies is_digit(#[trigger] b[k]) by {
                        assert(b[k] == s[e1 + 1 + k]);
                        assert(digit_at(s, e1 + 1 + k));
                    }
                    assert(all_digits(a) && t[p] == '.' as u8 && all_digits(b));
                } else {
                    assert forall|k: int| 0 <= k < t.len() implies is_digit(#[trigger] t[k]) by {
                        if k > 0 {
                            assert(digit_at(s, start + k));
                        }
                    }
                }
            }
        }
    }
}

/// Every decimal number token of a run is a decimal literal in the source.
pub proof fn lemma_lex_decimal_tokens(s: Seq<u8>, i: int)
    requires
        0 <= i,
        s.len() <= usize::MAX,
    ensures
        forall|k: int|
            0 <= k < lex_run(s, i).tokens.len() && (#[trigger] lex_run(s, i).tokens[k]).kind
                == TokenKind::Number(NumberLiteral::Decimal) ==> is_decimal_text(
                s.subrange(
                    lex_run(s, i).tokens[k].span.from as int,
                    lex_run(s, i).tokens[k].span.to as int,
                ),
            ),
    decreases s.len() + 1 - i,
{
    lemma_step_bounds(s, i);
    lemma_decimal_token_text(s, i);
    let (start, scan) = lex_step(s, i);
    if let Scan::Token { kind, end } = scan {
        lemma_lex_decimal_tokens(s, end);
        let rest = lex_run(s, end).tokens;
        let t = lex_run(s, i).tokens;
        assert(t =~= seq![token_of(start, end, kind)] + rest);
        assert forall|k: int|
            0 <= k < t.len() && (#[trigger] t[k]).kind == TokenKind::Number(
                NumberLiteral::Decimal,
            ) implies is_decimal_text(s.subrange(t[k].span.from as int, t[k].span.to as int)) by {
            if k > 0 {
                assert(t[k] == rest[k - 1]);
            }
        }
    }
}

/// The bytes of `t` other than spaces, in order.
pub open spec fn remove_spaces(t: Seq<u8>) -> Seq<u8>
    decreases t.len(),
{
    if t.len() == 0 {
        t
    } else if t[0] == ' ' as u8 {
        remove_spaces(t.drop_first())
    } else {
        seq![t[0]] + remove_spaces(t.drop_first())
    }
}

/// The texts of the tokens `ts` in `s`, one after another.
pub open spec fn tokens_text(s: Seq<u8>, ts: Seq<Token>) -> Seq<u8>
    decreases ts.len(),
{
    if ts.len() == 0 {
        Seq::empty()
    } else {
        s.subrange(ts[0].span.from as int, ts[0].span.to as int) + tokens_text(s, ts.drop_first())
    }
}

proof fn lemma_remove_spaces_concat(a: Seq<u8>, b: Seq<u8>)
    ensures
        remove_spaces(a + b) == remove_spaces(a) + remove_spaces(b),
    decreases a.len(),
{
    if a.len() == 0 {
        assert(a + b =~= b);
    } else {
        assert((a + b).drop_first() =~= a.drop_first() + b);
        lemma_remove_spaces_concat(a.drop_first(), b);
    }
}

proof fn lemma_remove_spaces_none(t: Seq<u8>)
    requires
        forall|k: int| 0 <= k < t.len() ==> t[k] != ' ' as u8,
    ensures
        remove_spaces(t) == t,
    decreases t.len(),
{
    if t.len() > 0 {
        lemma_remove_spaces_none(t.drop_first());
        assert(seq![t[0]] + t.drop_first() =~= t);
    }
}

proof fn lemma_remove_spaces_all(t: Seq<u8>)
    requires
        forall|k: int| 0 <= k < t.len() ==> t[k] == ' ' as u8,
    ensures
        remove_spaces(t) == Seq::<u8>::empty(),
    decreases t.len(),
{
    if t.len() > 0 {
        lemma_remove_spaces_all(t.drop_first());
    }
}

proof fn lemma_blank_run_spaces(s: Seq<u8>, i: int, j: int)
    requires
        0 <= i <= j <= s.len(),
        is_blank_run(s, i, j),
        forall|k: int| 0 <= k < s.len() ==> s[k] != '\\' as u8,
    ensures
        forall|k: int| i <= k < j ==> s[k] == ' ' as u8,
    decreases j - i,
{
    if i < j {
        lemma_blank_run_spaces(s, i + 1, j);
    }
}

/// Read from `i` to the end without backslashes, and with no token holding a
/// space, the tokens' texts one after another make up the rest of the source
/// without its spaces.
proof fn lemma_lex_covers_from(s: Seq<u8>, i: int)
    requires
        0 <= i <= s.len(),
        s.len() <= usize::MAX,
        forall|k: int| 0 <= k < s.len() ==> s[k] != '\\' as u8,
        lex_run(s, i).error is EndOfString,
        forall|k: int, m: int|
            0 <= k < lex_run(s, i).tokens.len() && (#[trigger] lex_run(s, i).tokens[k]).span.from
                <= m < lex_run(s, i).tokens[k].span.to ==> #[trigger] s[m] != ' ' as u8,
    ensures
        tokens_text(s, lex_run(s, i).tokens) == remove_spaces(s.subrange(i, s.len() as int)),
    decreases s.len() + 1 - i,
{
    lemma_step_bounds(s, i);
    lemma_lex_step_gap(s, i);
    let (start, scan) = lex_step(s, i);
    lemma_blank_run_spaces(s, i, start);
    lemma_remove_spaces_all(s.subrange(i, start));
    match scan {
        Scan::Token { kind, end } => {
            let rest = lex_run(s, end).tokens;
            let t = lex_run(s, i).tokens;
            assert(t =~= seq![token_of(start, end, kind)] + rest);
            assert(t[0] == token_of(start, end, kind));
            assert forall|k: int, m: int|
                0 <= k < rest.len() && (#[trigger] rest[k]).span.from <= m < rest[k].span.to
                    implies #[trigger] s[m] != ' ' as u8 by {
                assert(t[k + 1] == rest[k]);
            }
            lemma_lex_covers_from(s, end);
            assert(t.drop_first() =~= rest);
            assert forall|m: int| 0 <= m < end - start implies s.subrange(start, end)[m]
                != ' ' as u8 by {
                assert(s[start + m] != ' ' as u8);
            }
            lemma_remove_spaces_none(s.subrange(start, end));
            assert(s.subrange(i, s.len() as int) =~= s.subrange(i, start) + s.subrange(start, end)
                + s.subrange(end, s.len() as int));
            lemma_remove_spaces_concat(
                s.subrange(i, start) + s.subrange(start, end),
                s.subrange(end, s.len() as int),
            );
            lemma_remove_spaces_concat(s.subrange(i, start), s.subrange(start, end));
            assert(s.subrange(i, start) + Seq::<u8>::empty() =~= s.subrange(i, start));
            assert(Seq::<u8>::empty() + s.subrange(start, end) =~= s.subrange(start, end));
        },
        Scan::Fail { error, end } => {
            lemma_scan_end_of_string(s, start);
            assert(start == s.len());
            assert(s.subrange(i, s.len() as int) =~= s.subrange(i, start));
        },
    }
}

/// When the source has no backslash and the lexer reads it without an error
/// (it runs out of input), and no token's text holds a space, the tokens'
/// texts one after another make up the source without its spaces.  (A
/// subscript may hold a space, as in `a_ b`, whose first token is `a_ `;
/// those sources are left out.)
pub proof fn lemma_lex_covers_source(s: Seq<u8>)
    requires
        s.len() <= usize::MAX,
        forall|k: int| 0 <= k < s.len() ==> s[k] != '\\' as u8,
        lex_run(s, 0).error is EndOfString,
        forall|k: int, m: int|
            0 <= k < lex_run(s, 0).tokens.len() && (#[trigger] lex_run(s, 0).tokens[k]).span.from
                <= m < lex_run(s, 0).tokens[k].span.to ==> #[trigger] s[m] != ' ' as u8,
    ensures
        tokens_text(s, lex_run(s, 0).tokens) == remove_spaces(s),
{
    lemma_lex_covers_from(s, 0);
    assert(s.subrange(0, s.len() as int) =~= s);
}

/// Where the blanks before the `k`-th token of `t` start: the lexer's place
/// `i` for the first token, the end of the token before it otherwise.
pub open spec fn gap_start(t: Seq<Token>, i: int, k: int) -> int {
    if k == 0 {
        i
    } else {
        t[k - 1].span.to as int
    }
}

/// Over a whole run from `i`: the bytes before the first token, and between
/// any two neighbouring tokens, are blanks, and no token starts with a space.
/// Together with `lemma_lex_run_steps` this is the same over successive
/// calls of the lexer.
pub proof fn lemma_lex_run_gaps(s: Seq<u8>, i: int)
    requires
        0 <= i <= s.len(),
        s.len() <= usize::MAX,
    ensures
        forall|k: int|
            0 <= k < lex_run(s, i).tokens.len() ==> is_blank_run(
                s,
                gap_start(lex_run(s, i).tokens, i, k),
                (#[trigger] lex_run(s, i).tokens[k]).span.from as int,
            ) && s[lex_run(s, i).tokens[k].span.from as int] != ' ' as u8,
    decreases s.len() + 1 - i,
{
    lemma_step_bounds(s, i);
    lemma_lex_step_gap(s, i);
    let (start, scan) = lex_step(s, i);
    if let Scan::Token { kind, end } = scan {
        lemma_lex_run_gaps(s, end);
        let rest = lex_run(s, end).tokens;
        let t = lex_run(s, i).tokens;
        assert(t =~= seq![token_of(start, end, kind)] + rest);
        assert forall|k: int| 0 <= k < t.len() implies is_blank_run(
            s,
            gap_start(t, i, k),
            (#[trigger] t[k]).span.from as int,
        ) && s[t[k].span.from as int] != ' ' as u8 by {
            if k > 0 {
                assert(t[k] == rest[k - 1]);
                if k > 1 {
                    assert(t[k - 1] == rest[k - 2]);
                    assert(gap_start(t, i, k) == gap_start(rest, end, k - 1));
                } else {
                    assert(gap_start(t, i, k) == gap_start(rest, end, k - 1));
                }
            }
        }
    }
}

/// The reference texts: each punctuation and bracket is written as this
/// text.
pub proof fn lemma_reference_texts()
    ensures
        Punctuation::Period.reference_text() == seq!['.'],
        Punctuation::Comma.reference_text() == seq![','],
        Punctuation::Arrow.reference_text() == seq!['\\', 't', 'o'],
        Punctuation::Equals.reference_text() == seq!['='],
        Punctuation::With.reference_text() == seq!['\\', 'o', 'p', 'e', 'r', 'a', 't', 'o', 'r', 'n', 'a', 'm', 'e', '{', 'w', 'i', 't', 'h', '}'],
        Punctuation::For.reference_text() == seq!['\\', 'o', 'p', 'e', 'r', 'a', 't', 'o', 'r', 'n', 'a', 'm', 'e', '{', 'f', 'o', 'r', '}'],
        Punctuation::Frac.reference_text() == seq!['\\', 'f', 'r', 'a', 'c'],
        Punctuation::Sqrt.reference_text() == seq!['\\', 's', 'q', 'r', 't'],
        Punctuation::Plus.reference_text() == seq!['+'],
        Punctuation::Minus.reference_text() == seq!['-'],
        Punctuation::Times.reference_text() == seq!['\\', 'c', 'd', 'o', 't'],
        Punctuation::Exp.reference_text() == seq!['^'],
        Punctuation::Subscript.reference_text() == seq!['_'],
        Punctuation::LessThan.reference_text() == seq!['<'],
        Punctuation::LessOrEqual.reference_text() == seq!['\\', 'l', 'e'],
        Punctuation::MoreThan.reference_text() == seq!['>'],
        Punctuation::MoreOrEqual.reference_text() == seq!['\\', 'g', 'e'],
        Punctuation::Colon.reference_text() == seq![':'],
        Punctuation::Ellipses.reference_text() == seq!['.', '.', '.'],
        Punctuation::Sum.reference_text() == seq!['\\', 's', 'u', 'm'],
        Punctuation::Prod.reference_text() == seq!['\\', 'p', 'r', 'o', 'd'],
        Punctuation::Abs.reference_text() == seq!['|'],
        PairedPunct::Paren(LeftRight::Left).reference_text() == seq!['('],
        PairedPunct::Square(LeftRight::Left).reference_text() == seq!['['],
        PairedPunct::Curly(LeftRight::Left).reference_text() == seq!['\\', '{'],
        PairedPunct::LatexCurly(LeftRight::Left).reference_text() == seq!['{'],
        PairedPunct::Paren(LeftRight::Right).reference_text() == seq![')'],
        PairedPunct::Square(LeftRight::Right).reference_text() == seq![']'],
        PairedPunct::Curly(LeftRight::Right).reference_text() == seq!['\\', '}'],
        PairedPunct::LatexCurly(LeftRight::Right).reference_text() == seq!['}'],
{
}

/// A token that starts (not after a backslash) with an ASCII letter, upper
/// or lower case, is an identifier: just the letter when no `_` follows it,
/// and otherwise the letter with its subscript, unless the input ends inside
/// the subscript.
pub proof fn lemma_letter_starts_identifier(s: Seq<u8>, i: int)
    requires
        0 <= i,
        lex_step(s, i).0 < s.len(),
        ('a' as u8 <= s[lex_step(s, i).0] <= 'z' as u8) || ('A' as u8 <= s[lex_step(s, i).0]
            <= 'Z' as u8),
    ensures
        ({
            let (start, scan) = lex_step(s, i);
            &&& !byte_is(s, start + 1, '_' as u8) ==> scan == (Scan::Token {
                kind: TokenKind::Identifier,
                end: start + 1,
            })
            &&& scan matches Scan::Token { kind, .. } ==> kind == TokenKind::Identifier
            &&& scan matches Scan::Fail { error, .. } ==> error == LexError::EndOfStringWhile(
                IDENTIFIER_SUBSCRIPT,
            )
        }),
{
    lemma_skip_blanks_bounds(s, i);
}

} // verus!
