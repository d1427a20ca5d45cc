//! A minimal parser-combinator library over code points.
//!
//! Primitive matchers (an exact code point, a code point satisfying a
//! predicate) are combined by transform, bounded repetition and ordered
//! alternation into recursive-descent parsers for string grammars. Every
//! parser is an immutable value; running one neither mutates it nor the
//! input, so parsers may be reused and shared freely.

use vstd::prelude::*;

pub mod alternation;
pub mod errors;
pub mod laws;
pub mod parser;
pub mod primitives;
pub mod repeat;
pub mod transform;

pub use crate::alternation::OneOf;
pub use crate::alternation::one_of;
pub use crate::errors::ParseError;
pub use crate::parser::Parser;
pub use crate::primitives::Any;
pub use crate::primitives::Character;
pub use crate::primitives::any;
pub use crate::primitives::character;
pub use crate::repeat::Between;
pub use crate::repeat::Limit;
pub use crate::repeat::at_least;
pub use crate::repeat::between;
pub use crate::repeat::many;
pub use crate::transform::MapParser;
pub use crate::transform::map_parser;

verus! {

/// Top-level convenience entry, not yet wired to a grammar: it accepts every
/// input. Callers are expected to build their own top-level parser from the
/// combinators instead.
pub fn parse(_input: &str) -> (r: Result<(), ParseError>)
    ensures
        r is Ok,
{
    Ok(())
}

} // verus!
