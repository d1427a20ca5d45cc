use vstd::prelude::*;

use core::marker::PhantomData;

use crate::errors::ParseError;
use crate::parser::Parser;

verus! {

/// Wraps a parser and applies a pure function to its successful result.
///
/// On success the transformed value is returned with the inner remainder
/// unchanged; on failure the inner error is propagated unmodified.
#[verifier::reject_recursive_types(O)]
pub struct MapParser<P, F, O> where P: Parser, F: Fn(<P as Parser>::Value) -> O {
    /// The wrapped parser.
    pub parser: P,
    /// The transform applied to the wrapped parser's value.
    pub map: F,
    /// Marks the result type, which only `map` mentions.
    pub phantom: PhantomData<O>,
}

impl<P, F, O> Parser for MapParser<P, F, O> where P: Parser, F: Fn(<P as Parser>::Value) -> O {
    type Value = O;

    open spec fn wf(&self) -> bool {
        &&& self.parser.wf()
        &&& forall|v: <P as Parser>::Value| #[trigger] call_requires(self.map, (v,))
    }

    open spec fn consuming(&self) -> bool {
        self.parser.consuming()
    }

    open spec fn ok_on(&self, s: Seq<char>, v: O, rest: Seq<char>) -> bool {
        exists|inner: <P as Parser>::Value|
            self.parser.ok_on(s, inner, rest) && #[trigger] call_ensures(self.map, (inner,), v)
    }

    open spec fn err_on(&self, s: Seq<char>, e: ParseError) -> bool {
        self.parser.err_on(s, e)
    }

    fn parse<'a>(&self, input: &'a str) -> (r: Result<(O, &'a str), ParseError>) {
        let attempt = self.parser.parse(input);
        match attempt {
            Ok((value, rest)) => Ok(((self.map)(value), rest)),
            Err(e) => Err(e),
        }
    }
}

impl<P, F, O> MapParser<P, F, O> where P: Parser, F: Fn(<P as Parser>::Value) -> O {
    /// Build a parser that runs `parser` and transforms its value with `map`.
    pub fn new(parser: P, map: F) -> (r: Self)
        ensures
            r.parser == parser,
            r.map == map,
    {
        MapParser { parser, map, phantom: PhantomData }
    }
}

/// A parser that runs `parser` and applies `map` to its successful value.
pub fn map_parser<P: Parser, O, F: Fn(<P as Parser>::Value) -> O>(parser: P, map: F) -> (r:
    MapParser<P, F, O>)
    ensures
        r.parser == parser,
        r.map == map,
{
    MapParser::new(parser, map)
}

} // verus!
