use vstd::prelude::*;

verus! {

/// Why a decimal number could not be read.
#[derive(Debug, Copy, Clone, PartialEq, Eq, Structural)]
pub enum IntErrorKind {
    /// There were no digits to read.
    Empty,
    /// A character that is no decimal digit was found.
    InvalidDigit,
    /// The number is too large for its type.
    PosOverflow,
    /// The number is zero where zero has no meaning.
    Zero,
}

/// Errors that may be encountered when parsing a string.
#[derive(Debug, Clone, PartialEq, Eq)]
pub enum ParseError {
    /// Tried to parse a string, but it was not the expected length. The given `usize` is the
    /// actual length.
    BadStringLen(usize),
    /// Tried to parse a multi-line string but encountered a line that was not the expected
    /// length. The given `usize` is the actual length.
    BadLineLen(usize),
    /// Encountered an unexpected character in a string.
    BadChar(char),
    /// Tried to parse an empty string.
    EmptyString,
    /// Could not parse an integer from a string.
    BadInt(IntErrorKind),
    /// Tried to parse a string which represents an invalid play.
    BadPlay(PlayError),
    /// A generic error where the given string could not be parsed for some reason.
    BadString(String),
}

/// Errors that may be encountered when constructing a play.
#[derive(Debug, Copy, Clone, PartialEq, Eq, Structural)]
pub enum PlayError {
    DisjointTiles,
}

/// Errors relating to the board.
#[derive(Debug, Copy, Clone, PartialEq, Eq, Structural)]
pub enum BoardError {
    OutOfBounds,
}

} // verus!
