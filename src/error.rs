use vstd::prelude::*;

verus! {

/// Why a JSON text was rejected. Every variant carries the 0-based character
/// offset into the input at which the problem was found.
#[allow(inconsistent_fields)]
#[derive(Debug, Clone, Copy, PartialEq, Eq, Structural)]
pub enum ParseError {
    /// A literal keyword (`true`, `false`, `null`) was cut short by the end of input.
    UnexpectedEndOfInput { offset: usize },
    /// No value can start here; `found` is `None` at the end of input.
    UnexpectedToken { offset: usize, found: Option<char> },
    /// A literal keyword differs from the expected one at `offset`.
    LexError { offset: usize, found: char, expected: char },
    /// The number token `input[offset..offset + length]` breaks the number grammar.
    InvalidNumber { offset: usize, length: usize },
    /// The string opened at `offset` is never closed.
    UnterminatedString { offset: usize },
    /// A raw control character (below U+0020) stands inside a string.
    InvalidStringChar { offset: usize, found: char },
    /// The escape sequence that starts with the backslash at `offset` is malformed.
    InvalidEscape { offset: usize },
    /// After an array element or object member neither `,` nor the closing bracket follows.
    ExpectedCommaOrBracket { offset: usize, found: Option<char> },
    /// An object key is not followed by `:`.
    ExpectedColon { offset: usize, found: Option<char> },
    /// An object member does not start with a string key.
    ExpectedStringKey { offset: usize, found: Option<char> },
    /// Something other than whitespace follows the complete value.
    TrailingContent { offset: usize, found: char },
    /// An array or object at `offset` would nest deeper than the parser allows.
    NestingTooDeep { offset: usize },
}

impl ParseError {
    /// The character offset that the error points at.
    pub fn offset(&self) -> (r: usize)
        ensures
            r == self.spec_offset(),
    {
        match *self {
            ParseError::UnexpectedEndOfInput { offset } => offset,
            ParseError::UnexpectedToken { offset, .. } => offset,
            ParseError::LexError { offset, .. } => offset,
            ParseError::InvalidNumber { offset, .. } => offset,
            ParseError::UnterminatedString { offset } => offset,
            ParseError::InvalidStringChar { offset, .. } => offset,
            ParseError::InvalidEscape { offset } => offset,
            ParseError::ExpectedCommaOrBracket { offset, .. } => offset,
            ParseError::ExpectedColon { offset, .. } => offset,
            ParseError::ExpectedStringKey { offset, .. } => offset,
            ParseError::TrailingContent { offset, .. } => offset,
            ParseError::NestingTooDeep { offset } => offset,
        }
    }

    pub open spec fn spec_offset(&self) -> usize {
        match *self {
            ParseError::UnexpectedEndOfInput { offset } => offset,
            ParseError::UnexpectedToken { offset, .. } => offset,
            ParseError::LexError { offset, .. } => offset,
            ParseError::InvalidNumber { offset, .. } => offset,
            ParseError::UnterminatedString { offset } => offset,
            ParseError::InvalidStringChar { offset, .. } => offset,
            ParseError::InvalidEscape { offset } => offset,
            ParseError::ExpectedCommaOrBracket { offset, .. } => offset,
            ParseError::ExpectedColon { offset, .. } => offset,
            ParseError::ExpectedStringKey { offset, .. } => offset,
            ParseError::TrailingContent { offset, .. } => offset,
            ParseError::NestingTooDeep { offset } => offset,
        }
    }
}

} // verus!
