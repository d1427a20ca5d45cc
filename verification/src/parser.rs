use vstd::prelude::*;

use crate::errors::ParseError;

verus! {

/// The contract every parser satisfies.
///
/// A parser of result type `Value` exposes one operation, `parse`, which takes
/// an input view and either consumes a prefix — returning the parsed value and
/// the unconsumed remainder — or fails with a `ParseError`.
///
/// Because a parser may be built around an arbitrary predicate or transform
/// function, its behaviour is described by two relations over the view of the
/// input: `ok_on` lists the successful outcomes the parser admits on an input,
/// and `err_on` lists the failing ones. The contract of `parse` says that the
/// returned outcome lies in the corresponding relation, so an input on which
/// `err_on` is empty is guaranteed to parse successfully, and one on which
/// `ok_on` is empty is guaranteed to be rejected.
pub trait Parser {
    /// The type of value a successful parse produces.
    type Value;

    /// Well-formedness of the parser's fixed configuration: what must hold of
    /// the functions and parsers it was built from for `parse` to be callable.
    spec fn wf(&self) -> bool;

    /// True when this parser claims that every one of its successes consumes
    /// at least one code point. `parse` backs the claim: whenever `consuming()`
    /// holds, a successful remainder is strictly shorter than the input.
    spec fn consuming(&self) -> bool;

    /// The successful outcomes this parser admits on input `s`: value `v`
    /// together with the unconsumed remainder `rest`.
    spec fn ok_on(&self, s: Seq<char>, v: Self::Value, rest: Seq<char>) -> bool;

    /// The failing outcomes this parser admits on input `s`.
    spec fn err_on(&self, s: Seq<char>, e: ParseError) -> bool;

    /// Run the parser on `input`.
    ///
    /// On success the remainder is the unconsumed suffix of the input.
    fn parse<'a>(&self, input: &'a str) -> (r: Result<(Self::Value, &'a str), ParseError>)
        requires
            self.wf(),
        ensures
            (match r {
                Ok((v, rest)) => self.ok_on(input@, v, rest@) && is_suffix_of(rest@, input@) && (
                self.consuming() ==> rest@.len() < input@.len()),
                Err(e) => self.err_on(input@, e),
            }),
    ;
}

/// True when `t` is the suffix of `s` that starts `t.len()` code points
/// before its end.
pub open spec fn is_suffix_of(t: Seq<char>, s: Seq<char>) -> bool {
    t.len() <= s.len() && t == s.skip(s.len() - t.len())
}

/// A suffix of a suffix of `s` is itself a suffix of `s`.
pub proof fn lemma_suffix_transitive(u: Seq<char>, t: Seq<char>, s: Seq<char>)
    requires
        is_suffix_of(u, t),
        is_suffix_of(t, s),
    ensures
        is_suffix_of(u, s),
{
    assert forall|i: int| 0 <= i < u.len() implies u[i] == s.skip(s.len() - u.len())[i] by {
        assert(u[i] == t.skip(t.len() - u.len())[i]);
        assert(t[t.len() - u.len() + i] == s.skip(s.len() - t.len())[t.len() - u.len() + i]);
    }
    assert(u =~= s.skip(s.len() - u.len()));
}

/// True when `p` admits some failing outcome on `s`.
pub open spec fn some_error<P: Parser>(p: P, s: Seq<char>) -> bool {
    exists|e: ParseError| p.err_on(s, e)
}

} // verus!
