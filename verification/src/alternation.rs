use vstd::prelude::*;

use crate::errors::ParseError;
use crate::parser::Parser;
use crate::parser::some_error;

verus! {

/// Tries an ordered sequence of parsers of one result type and returns the
/// first success verbatim.
///
/// Every candidate is tried against the same, original input; per-candidate
/// errors are discarded, and when all candidates fail — in particular when
/// there are none — the combinator fails with `ExpectingOneOfToParse`.
pub struct OneOf<P> where P: Parser {
    /// The candidates, in the order they are tried.
    pub options: Vec<P>,
}

impl<P> OneOf<P> where P: Parser {
    /// Candidate `i` succeeded with `(v, rest)` after every earlier candidate
    /// failed on the same input.
    pub open spec fn wins_at(
        self,
        s: Seq<char>,
        i: int,
        v: <P as Parser>::Value,
        rest: Seq<char>,
    ) -> bool {
        &&& 0 <= i < self.options@.len()
        &&& self.options@[i].ok_on(s, v, rest)
        &&& forall|j: int| 0 <= j < i ==> some_error(#[trigger] self.options@[j], s)
    }
}

impl<P> Parser for OneOf<P> where P: Parser {
    type Value = <P as Parser>::Value;

    open spec fn wf(&self) -> bool {
        forall|i: int| 0 <= i < self.options@.len() ==> (#[trigger] self.options@[i]).wf()
    }

    open spec fn consuming(&self) -> bool {
        forall|i: int| 0 <= i < self.options@.len() ==> (#[trigger] self.options@[i]).consuming()
    }

    open spec fn ok_on(&self, s: Seq<char>, v: <P as Parser>::Value, rest: Seq<char>) -> bool {
        exists|i: int| #[trigger] self.wins_at(s, i, v, rest)
    }

    open spec fn err_on(&self, s: Seq<char>, e: ParseError) -> bool {
        &&& e == ParseError::ExpectingOneOfToParse
        &&& forall|i: int| 0 <= i < self.options@.len() ==> some_error(#[trigger] self.options@[i], s)
    }

    fn parse<'a>(&self, input: &'a str) -> (r: Result<
        (<P as Parser>::Value, &'a str),
        ParseError,
    >) {
        let mut idx: usize = 0;
        while idx < self.options.len()
            invariant
                self.wf(),
                idx <= self.options@.len(),
                forall|j: int| 0 <= j < idx ==> some_error(#[trigger] self.options@[j], input@),
            decreases self.options@.len() - idx,
        {
            let attempt = self.options[idx].parse(input);
            match attempt {
                Ok((value, rest)) => {
                    proof {
                        assert(self.wins_at(input@, idx as int, value, rest@));
                    }
                    return Ok((value, rest));
                }
                Err(e) => {
                    proof {
                        assert(self.options@[idx as int].err_on(input@, e));
                    }
                }
            }
            idx += 1;
        }
        Err(ParseError::ExpectingOneOfToParse)
    }
}

impl<P> OneOf<P> where P: Parser {
    /// Build an ordered alternation over `options`.
    pub fn new(options: Vec<P>) -> (r: Self)
        ensures
            r.options == options,
    {
        OneOf { options }
    }
}

/// A parser that tries each of `options` in order against the same input and
/// returns the first success.
pub fn one_of<P: Parser>(options: Vec<P>) -> (r: OneOf<P>)
    ensures
        r.options == options,
{
    OneOf::new(options)
}

} // verus!
