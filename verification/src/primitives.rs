use vstd::prelude::*;

use crate::errors::ParseError;
use crate::parser::Parser;

verus! {

use vstd::string::StrSliceExecFns;

/// Matches one exact code point at the head of the input.
pub struct Character {
    /// The code point the parser accepts.
    pub character_to_match: char,
}

impl Parser for Character {
    type Value = char;

    open spec fn wf(&self) -> bool {
        true
    }

    open spec fn consuming(&self) -> bool {
        true
    }

    open spec fn ok_on(&self, s: Seq<char>, v: char, rest: Seq<char>) -> bool {
        &&& s.len() > 0
        &&& s[0] == self.character_to_match
        &&& v == self.character_to_match
        &&& rest == s.skip(1)
    }

    open spec fn err_on(&self, s: Seq<char>, e: ParseError) -> bool {
        &&& !(s.len() > 0 && s[0] == self.character_to_match)
        &&& e == ParseError::ExpectingCharacter(self.character_to_match)
    }

    fn parse<'a>(&self, input: &'a str) -> (r: Result<(char, &'a str), ParseError>) {
        let len = input.unicode_len();
        if len > 0 && input.get_char(0) == self.character_to_match {
            Ok((self.character_to_match, input.substring_char(1, len)))
        } else {
            Err(ParseError::ExpectingCharacter(self.character_to_match))
        }
    }
}

impl Character {
    /// Build a parser for exactly the code point `character_to_match`.
    pub fn new(character_to_match: char) -> (p: Character)
        ensures
            p.character_to_match == character_to_match,
    {
        Character { character_to_match }
    }
}

/// A parser that matches exactly the code point `character_to_match`.
pub fn character(character_to_match: char) -> (p: Character)
    ensures
        p.character_to_match == character_to_match,
{
    Character::new(character_to_match)
}

/// Matches one code point at the head of the input when it satisfies a
/// boolean predicate.
pub struct Any<F> where F: Fn(char) -> bool {
    /// The test the first code point must pass.
    pub predicate: F,
}

impl<F> Parser for Any<F> where F: Fn(char) -> bool {
    type Value = char;

    open spec fn wf(&self) -> bool {
        forall|c: char| #[trigger] call_requires(self.predicate, (c,))
    }

    open spec fn consuming(&self) -> bool {
        true
    }

    open spec fn ok_on(&self, s: Seq<char>, v: char, rest: Seq<char>) -> bool {
        &&& s.len() > 0
        &&& v == s[0]
        &&& rest == s.skip(1)
        &&& call_ensures(self.predicate, (s[0],), true)
    }

    open spec fn err_on(&self, s: Seq<char>, e: ParseError) -> bool {
        if s.len() == 0 {
            e == ParseError::EndOfInput
        } else {
            e == ParseError::ExpectingPredicate && call_ensures(self.predicate, (s[0],), false)
        }
    }

    fn parse<'a>(&self, input: &'a str) -> (r: Result<(char, &'a str), ParseError>) {
        let len = input.unicode_len();
        if len == 0 {
            Err(ParseError::EndOfInput)
        } else {
            let c = input.get_char(0);
            if (self.predicate)(c) {
                Ok((c, input.substring_char(1, len)))
            } else {
                Err(ParseError::ExpectingPredicate)
            }
        }
    }
}

impl<F> Any<F> where F: Fn(char) -> bool {
    /// Build a parser for one code point satisfying `predicate`.
    pub fn new(predicate: F) -> (p: Self)
        ensures
            p.predicate == predicate,
    {
        Any { predicate }
    }
}

/// A parser that matches one code point satisfying `predicate`.
pub fn any<F>(predicate: F) -> (p: Any<F>) where F: Fn(char) -> bool
    ensures
        p.predicate == predicate,
{
    Any::new(predicate)
}

} // verus!
