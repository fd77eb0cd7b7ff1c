use vstd::prelude::*;

verus! {

/// Why the lexer stopped.
#[derive(Debug, Copy, Clone, PartialEq, Eq)]
pub enum LexError {
    /// The input ended where a byte was expected.
    EndOfString,
    /// The input ended inside a construct; the text names the construct.
    EndOfStringWhile(&'static str),
    /// A byte that starts no token.
    UnknownByte(u8),
    /// A backslash followed by a byte that starts no command.
    UnknownSymbol,
    /// `\left` not followed by a bracket.
    NoLeft,
    /// `\left\` not followed by `{`.
    NoBraceLeft,
    /// `\right` not followed by a bracket.
    NoRight,
    /// `\right\` not followed by `}`.
    NoBraceRight,
    /// `\operatorname` not followed by `{name}`.
    BadOperatorName,
}

/// An error together with the text it was found in and the index of the
/// byte at which it was found.
#[derive(Debug)]
pub struct ContextError<'a, E> {
    pub string: &'a str,
    pub index: usize,
    pub error: E,
}

/// What the lexer was reading when the input ended inside an identifier's
/// subscript.
pub const IDENTIFIER_SUBSCRIPT: &'static str = "identifier subscript";

pub type LexResult<T> = Result<T, LexError>;

impl<'a> ContextError<'a, LexError> {
    /// Whether the error only says that the input ran out.
    pub fn is_eos(&self) -> (r: bool)
        ensures
            r == (self.error is EndOfString),
    {
        match self.error {
            LexError::EndOfString => true,
            _ => false,
        }
    }
}

} // verus!
