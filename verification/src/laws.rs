use vstd::prelude::*;

use crate::alternation::OneOf;
use crate::errors::ParseError;
use crate::parser::Parser;
use crate::parser::some_error;
use crate::primitives::Any;
use crate::primitives::Character;
use crate::repeat::Between;
use crate::repeat::Limit;
use crate::repeat::chain_of;
use crate::repeat::step_input;
use crate::transform::MapParser;

verus! {

/// On an input that starts with its target code point, a `Character` parser
/// admits exactly one outcome: the target together with the input after it,
/// and no failing outcome — so `parse` must return them.
pub proof fn lemma_character_on_match(p: Character, s: Seq<char>)
    requires
        s.len() > 0,
        s[0] == p.character_to_match,
    ensures
        forall|v: char, rest: Seq<char>|
            #[trigger] p.ok_on(s, v, rest) <==> (v == p.character_to_match && rest == s.skip(1)),
        forall|e: ParseError| !(#[trigger] p.err_on(s, e)),
{
}

/// On an input that does not start with its target code point — the empty
/// input included — a `Character` parser admits no success, and exactly one
/// failure: `ExpectingCharacter` carrying the target.
pub proof fn lemma_character_on_mismatch(p: Character, s: Seq<char>)
    requires
        !(s.len() > 0 && s[0] == p.character_to_match),
    ensures
        forall|v: char, rest: Seq<char>| !(#[trigger] p.ok_on(s, v, rest)),
        forall|e: ParseError|
            #[trigger] p.err_on(s, e) <==> e == ParseError::ExpectingCharacter(
                p.character_to_match,
            ),
{
}

/// With a predicate that computes the pure test `f`, an `Any` parser on a
/// non-empty input whose first code point satisfies `f` admits no failing
/// outcome, and every success it admits is that code point together with the
/// rest of the input.
pub proof fn lemma_any_on_match<F: Fn(char) -> bool>(
    p: Any<F>,
    s: Seq<char>,
    f: spec_fn(char) -> bool,
)
    requires
        forall|c: char, b: bool| #[trigger] call_ensures(p.predicate, (c,), b) ==> b == f(c),
        s.len() > 0,
        f(s[0]),
    ensures
        forall|v: char, rest: Seq<char>|
            #[trigger] p.ok_on(s, v, rest) ==> (v == s[0] && rest == s.skip(1)),
        forall|e: ParseError| !(#[trigger] p.err_on(s, e)),
{
}

/// With a predicate that computes the pure test `f`, an `Any` parser on a
/// non-empty input whose first code point fails `f` admits no success, and
/// every failure it admits is `ExpectingPredicate`.
pub proof fn lemma_any_on_mismatch<F: Fn(char) -> bool>(
    p: Any<F>,
    s: Seq<char>,
    f: spec_fn(char) -> bool,
)
    requires
        forall|c: char, b: bool| #[trigger] call_ensures(p.predicate, (c,), b) ==> b == f(c),
        s.len() > 0,
        !f(s[0]),
    ensures
        forall|v: char, rest: Seq<char>| !(#[trigger] p.ok_on(s, v, rest)),
        forall|e: ParseError| #[trigger] p.err_on(s, e) ==> e == ParseError::ExpectingPredicate,
{
}

/// On the empty input an `Any` parser admits no success, and exactly one
/// failure: `EndOfInput`.
pub proof fn lemma_any_on_empty<F: Fn(char) -> bool>(p: Any<F>, s: Seq<char>)
    requires
        s.len() == 0,
    ensures
        forall|v: char, rest: Seq<char>| !(#[trigger] p.ok_on(s, v, rest)),
        forall|e: ParseError| #[trigger] p.err_on(s, e) <==> e == ParseError::EndOfInput,
{
}

/// A `MapParser` succeeds exactly when its wrapped parser succeeds — with a
/// transformed value and the inner remainder unchanged — and fails with
/// exactly the inner failures, unmodified.
pub proof fn lemma_map_outcomes<P: Parser, O, F: Fn(<P as Parser>::Value) -> O>(
    m: MapParser<P, F, O>,
    s: Seq<char>,
)
    ensures
        forall|v: O, rest: Seq<char>|
            #[trigger] m.ok_on(s, v, rest) <==> exists|inner: <P as Parser>::Value|
                m.parser.ok_on(s, inner, rest) && #[trigger] call_ensures(m.map, (inner,), v),
        forall|e: ParseError| #[trigger] m.err_on(s, e) <==> m.parser.err_on(s, e),
{
}

/// A repetition without a mandatory phase — `many` — admits no failing
/// outcome on any input: it never fails.
pub proof fn lemma_many_never_fails<P: Parser>(b: Between<P>, s: Seq<char>)
    requires
        b.lower_limit == 0,
    ensures
        forall|e: ParseError| !(#[trigger] b.err_on(s, e)),
{
}

/// On an input with no leading match of the wrapped parser, `many` admits
/// only the empty sequence of values, with the input itself as the unchanged
/// remainder.
pub proof fn lemma_many_on_no_match<P: Parser>(b: Between<P>, s: Seq<char>)
    requires
        b.lower_limit == 0,
        forall|v: <P as Parser>::Value, t: Seq<char>| !(#[trigger] b.parser.ok_on(s, v, t)),
    ensures
        forall|v: Vec<<P as Parser>::Value>, rest: Seq<char>|
            #[trigger] b.ok_on(s, v, rest) ==> (v@.len() == 0 && rest == s),
{
    assert forall|v: Vec<<P as Parser>::Value>, rest: Seq<char>| #[trigger] b.ok_on(
        s,
        v,
        rest,
    ) implies (v@.len() == 0 && rest == s) by {
        let rests = choose|rests: Seq<Seq<char>>| b.run_to(s, v@, rests, rest);
        if v@.len() > 0 {
            assert(b.parser.ok_on(step_input(s, rests, 0), v@[0], rests[0]));
            assert(false);
        }
        assert(rest == step_input(s, rests, 0));
    }
}

/// Step `j` of two runs of one parser from the same input agrees in value
/// and remainder, when the parser admits only one outcome at each step of
/// the first run.
proof fn lemma_chain_agree_at<P: Parser>(
    p: P,
    s: Seq<char>,
    vals: Seq<<P as Parser>::Value>,
    rests: Seq<Seq<char>>,
    other_vals: Seq<<P as Parser>::Value>,
    other_rests: Seq<Seq<char>>,
    j: int,
)
    requires
        chain_of(p, s, vals, rests),
        chain_of(p, s, other_vals, other_rests),
        forall|i: int, v: <P as Parser>::Value, t: Seq<char>|
            0 <= i < vals.len() && #[trigger] p.ok_on(step_input(s, rests, i), v, t) ==> (v
                == vals[i] && t == rests[i]),
        0 <= j < other_vals.len(),
        j < vals.len(),
    ensures
        other_vals[j] == vals[j],
        other_rests[j] == rests[j],
    decreases j,
{
    if j > 0 {
        lemma_chain_agree_at(p, s, vals, rests, other_vals, other_rests, j - 1);
    }
    assert(step_input(s, other_rests, j) == step_input(s, rests, j));
    assert(p.ok_on(step_input(s, other_rests, j), other_vals[j], other_rests[j]));
    assert(p.ok_on(step_input(s, rests, j), other_vals[j], other_rests[j]));
}

/// The inputs from which step `m` of the two runs would continue agree as
/// well.
proof fn lemma_chain_step_agree<P: Parser>(
    p: P,
    s: Seq<char>,
    vals: Seq<<P as Parser>::Value>,
    rests: Seq<Seq<char>>,
    other_vals: Seq<<P as Parser>::Value>,
    other_rests: Seq<Seq<char>>,
    m: int,
)
    requires
        chain_of(p, s, vals, rests),
        chain_of(p, s, other_vals, other_rests),
        forall|i: int, v: <P as Parser>::Value, t: Seq<char>|
            0 <= i < vals.len() && #[trigger] p.ok_on(step_input(s, rests, i), v, t) ==> (v
                == vals[i] && t == rests[i]),
        0 <= m <= other_vals.len(),
        m <= vals.len(),
    ensures
        step_input(s, other_rests, m) == step_input(s, rests, m),
{
    if m > 0 {
        lemma_chain_agree_at(p, s, vals, rests, other_vals, other_rests, m - 1);
    }
}

/// On an input offering exactly `vals.len()` consecutive matches of the
/// wrapped parser — each step deterministic — followed by a non-match, a
/// repetition bounded above by `hi`:
/// with a satisfied mandatory phase it collects exactly
/// `min(vals.len(), hi)` values and cannot fail; with an unsatisfiable one
/// (`lower_limit > vals.len()`) it admits no success, and every failure it
/// admits is one the wrapped parser admits at the first non-match.
pub proof fn lemma_between_on_exact_matches<P: Parser>(
    b: Between<P>,
    s: Seq<char>,
    hi: u8,
    vals: Seq<<P as Parser>::Value>,
    rests: Seq<Seq<char>>,
)
    requires
        b.upper_limit == Limit::At(hi),
        b.lower_limit <= hi,
        chain_of(b.parser, s, vals, rests),
        forall|i: int, v: <P as Parser>::Value, t: Seq<char>|
            0 <= i < vals.len() && #[trigger] b.parser.ok_on(step_input(s, rests, i), v, t) ==> (v
                == vals[i] && t == rests[i]),
        forall|i: int, e: ParseError|
            0 <= i < vals.len() ==> !(#[trigger] b.parser.err_on(step_input(s, rests, i), e)),
        forall|v: <P as Parser>::Value, t: Seq<char>|
            !(#[trigger] b.parser.ok_on(step_input(s, rests, vals.len() as int), v, t)),
    ensures
        vals.len() >= b.lower_limit ==> forall|v: Vec<<P as Parser>::Value>, rest: Seq<char>|
            #[trigger] b.ok_on(s, v, rest) ==> {
                let n = if vals.len() < hi as nat {
                    vals.len() as int
                } else {
                    hi as int
                };
                v@ == vals.take(n) && rest == step_input(s, rests, n)
            },
        vals.len() >= b.lower_limit ==> forall|e: ParseError| !(#[trigger] b.err_on(s, e)),
        vals.len() < b.lower_limit ==> forall|v: Vec<<P as Parser>::Value>, rest: Seq<char>|
            !(#[trigger] b.ok_on(s, v, rest)),
        vals.len() < b.lower_limit ==> forall|e: ParseError|
            #[trigger] b.err_on(s, e) ==> b.parser.err_on(
                step_input(s, rests, vals.len() as int),
                e,
            ),
{
    let k = vals.len() as int;
    let n = if vals.len() < hi as nat {
        vals.len() as int
    } else {
        hi as int
    };
    if k >= b.lower_limit as int {
        assert forall|v: Vec<<P as Parser>::Value>, rest: Seq<char>| #[trigger] b.ok_on(
            s,
            v,
            rest,
        ) implies (v@ == vals.take(n) && rest == step_input(s, rests, n)) by {
            let other = choose|other: Seq<Seq<char>>| b.run_to(s, v@, other, rest);
            let m = v@.len() as int;
            if m > k {
                lemma_chain_step_agree(b.parser, s, vals, rests, v@, other, k);
                assert(b.parser.ok_on(step_input(s, other, k), v@[k], other[k]));
                assert(b.parser.ok_on(step_input(s, rests, k), v@[k], other[k]));
                assert(false);
            }
            lemma_chain_step_agree(b.parser, s, vals, rests, v@, other, m);
            assert(step_input(s, other, m) == step_input(s, rests, m));
            if m < n {
                assert(b.upper_limit.allows(m));
                let e = choose|e: ParseError| b.parser.err_on(rest, e);
                assert(b.parser.err_on(step_input(s, rests, m), e));
                assert(false);
            }
            assert(m == n);
            assert forall|j: int| 0 <= j < n implies v@[j] == vals.take(n)[j] by {
                lemma_chain_agree_at(b.parser, s, vals, rests, v@, other, j);
            }
            assert(v@ =~= vals.take(n));
        }
        assert forall|e: ParseError| !(#[trigger] b.err_on(s, e)) by {
            if b.err_on(s, e) {
                let (fv, fr) = choose|fv: Seq<<P as Parser>::Value>, fr: Seq<Seq<char>>|
                    b.fail_at(s, fv, fr, e);
                let j = fv.len() as int;
                lemma_chain_step_agree(b.parser, s, vals, rests, fv, fr, j);
                assert(step_input(s, fr, j) == step_input(s, rests, j));
                assert(b.parser.err_on(step_input(s, rests, j), e));
                assert(false);
            }
        }
    } else {
        assert forall|v: Vec<<P as Parser>::Value>, rest: Seq<char>| !(#[trigger] b.ok_on(
            s,
            v,
            rest,
        )) by {
            if b.ok_on(s, v, rest) {
                let other = choose|other: Seq<Seq<char>>| b.run_to(s, v@, other, rest);
                lemma_chain_step_agree(b.parser, s, vals, rests, v@, other, k);
                assert(b.parser.ok_on(step_input(s, other, k), v@[k], other[k]));
                assert(b.parser.ok_on(step_input(s, rests, k), v@[k], other[k]));
                assert(false);
            }
        }
        assert forall|e: ParseError| #[trigger] b.err_on(s, e) implies b.parser.err_on(
            step_input(s, rests, k),
            e,
        ) by {
            let (fv, fr) = choose|fv: Seq<<P as Parser>::Value>, fr: Seq<Seq<char>>|
                b.fail_at(s, fv, fr, e);
            let j = fv.len() as int;
            if j > k {
                lemma_chain_step_agree(b.parser, s, vals, rests, fv, fr, k);
                assert(b.parser.ok_on(step_input(s, fr, k), fv[k], fr[k]));
                assert(b.parser.ok_on(step_input(s, rests, k), fv[k], fr[k]));
                assert(false);
            } else if j < k {
                lemma_chain_step_agree(b.parser, s, vals, rests, fv, fr, j);
                assert(b.parser.err_on(step_input(s, rests, j), e));
                assert(false);
            } else {
                lemma_chain_step_agree(b.parser, s, vals, rests, fv, fr, k);
            }
        }
    }
}

/// When the first of two alternatives matches — and is deterministic on this
/// input — the alternation admits exactly the first alternative's outcome and
/// cannot fail.
pub proof fn lemma_one_of_first_matches<P: Parser>(
    o: OneOf<P>,
    s: Seq<char>,
    va: <P as Parser>::Value,
    ra: Seq<char>,
)
    requires
        o.options@.len() == 2,
        o.options@[0].ok_on(s, va, ra),
        forall|v: <P as Parser>::Value, t: Seq<char>|
            #[trigger] o.options@[0].ok_on(s, v, t) ==> (v == va && t == ra),
        forall|e: ParseError| !(#[trigger] o.options@[0].err_on(s, e)),
    ensures
        forall|v: <P as Parser>::Value, rest: Seq<char>|
            #[trigger] o.ok_on(s, v, rest) ==> (v == va && rest == ra),
        forall|e: ParseError| !(#[trigger] o.err_on(s, e)),
{
    assert forall|v: <P as Parser>::Value, rest: Seq<char>| #[trigger] o.ok_on(
        s,
        v,
        rest,
    ) implies (v == va && rest == ra) by {
        let i = choose|i: int| o.wins_at(s, i, v, rest);
        if i != 0 {
            assert(some_error(o.options@[0], s));
            let e = choose|e: ParseError| o.options@[0].err_on(s, e);
            assert(false);
        }
    }
    assert forall|e: ParseError| !(#[trigger] o.err_on(s, e)) by {
        if o.err_on(s, e) {
            assert(some_error(o.options@[0], s));
            let e0 = choose|e0: ParseError| o.options@[0].err_on(s, e0);
            assert(false);
        }
    }
}

/// When the first of two alternatives fails but the second matches — and is
/// deterministic on this input — the alternation admits exactly the second
/// alternative's outcome and cannot fail.
pub proof fn lemma_one_of_second_matches<P: Parser>(
    o: OneOf<P>,
    s: Seq<char>,
    vb: <P as Parser>::Value,
    rb: Seq<char>,
)
    requires
        o.options@.len() == 2,
        forall|v: <P as Parser>::Value, t: Seq<char>| !(#[trigger] o.options@[0].ok_on(s, v, t)),
        o.options@[1].ok_on(s, vb, rb),
        forall|v: <P as Parser>::Value, t: Seq<char>|
            #[trigger] o.options@[1].ok_on(s, v, t) ==> (v == vb && t == rb),
        forall|e: ParseError| !(#[trigger] o.options@[1].err_on(s, e)),
    ensures
        forall|v: <P as Parser>::Value, rest: Seq<char>|
            #[trigger] o.ok_on(s, v, rest) ==> (v == vb && rest == rb),
        forall|e: ParseError| !(#[trigger] o.err_on(s, e)),
{
    assert forall|v: <P as Parser>::Value, rest: Seq<char>| #[trigger] o.ok_on(
        s,
        v,
        rest,
    ) implies (v == vb && rest == rb) by {
        let i = choose|i: int| o.wins_at(s, i, v, rest);
        assert(i != 0);
    }
    assert forall|e: ParseError| !(#[trigger] o.err_on(s, e)) by {
        if o.err_on(s, e) {
            assert(some_error(o.options@[1], s));
            let e1 = choose|e1: ParseError| o.options@[1].err_on(s, e1);
            assert(false);
        }
    }
}

/// When no alternative matches, the alternation admits no success, and every
/// failure it admits is the synthetic `ExpectingOneOfToParse` — the
/// per-candidate errors are discarded.
pub proof fn lemma_one_of_no_match<P: Parser>(o: OneOf<P>, s: Seq<char>)
    requires
        forall|i: int, v: <P as Parser>::Value, t: Seq<char>|
            0 <= i < o.options@.len() ==> !(#[trigger] o.options@[i].ok_on(s, v, t)),
    ensures
        forall|v: <P as Parser>::Value, rest: Seq<char>| !(#[trigger] o.ok_on(s, v, rest)),
        forall|e: ParseError| #[trigger] o.err_on(s, e) ==> e == ParseError::ExpectingOneOfToParse,
{
    assert forall|v: <P as Parser>::Value, rest: Seq<char>| !(#[trigger] o.ok_on(s, v, rest)) by {
        if o.ok_on(s, v, rest) {
            let i = choose|i: int| o.wins_at(s, i, v, rest);
            assert(o.options@[i].ok_on(s, v, rest));
            assert(false);
        }
    }
}

} // verus!
