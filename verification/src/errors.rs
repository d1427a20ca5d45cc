use vstd::prelude::*;

verus! {

/// The ways a parse can fail.
///
/// Errors are plain values; they say what was expected, not where.
#[derive(Debug, PartialEq)]
pub enum ParseError {
    /// A failure with no further detail.
    GenericError,
    /// The input does not start with the expected code point.
    ExpectingCharacter(char),
    /// The first code point of the input does not satisfy the predicate.
    ExpectingPredicate,
    /// No alternative matched the input.
    ExpectingOneOfToParse,
    /// The input was empty where a code point was needed.
    EndOfInput,
}

} // verus!
