use vstd::prelude::*;

use crate::errors::ParseError;
use crate::parser::Parser;
use crate::parser::is_suffix_of;
use crate::parser::lemma_suffix_transitive;

verus! {

/// An upper bound on how often a repetition may run.
pub enum Limit {
    /// Stop once this many repetitions have succeeded.
    At(u8),
    /// No upper bound.
    Infinity,
}

impl Limit {
    /// True when the bound still allows one more repetition after `n`
    /// successes so far.
    pub open spec fn allows(self, n: int) -> bool {
        match self {
            Limit::At(threshold) => n < threshold,
            Limit::Infinity => true,
        }
    }

    /// True iff the bound is strictly bigger than `n`, i.e. one more
    /// repetition is still allowed after `n` successes.
    pub fn is_bigger_then(&self, n: u8) -> (r: bool)
        ensures
            r == self.allows(n as int),
    {
        match self {
            Limit::At(threshold) => *threshold > n,
            Limit::Infinity => true,
        }
    }
}

/// The input the repetition's step `i` starts from: the whole input for the
/// first step, and the remainder left by step `i - 1` after that.
pub open spec fn step_input(s: Seq<char>, rests: Seq<Seq<char>>, i: int) -> Seq<char> {
    if i <= 0 {
        s
    } else {
        rests[i - 1]
    }
}

/// A run of consecutive successes of `p` starting on `s`: step `i` parses
/// value `vals[i]` and leaves remainder `rests[i]`.
pub open spec fn chain_of<P: Parser>(
    p: P,
    s: Seq<char>,
    vals: Seq<<P as Parser>::Value>,
    rests: Seq<Seq<char>>,
) -> bool {
    &&& rests.len() == vals.len()
    &&& forall|i: int|
        0 <= i < vals.len() ==> p.ok_on(#[trigger] step_input(s, rests, i), vals[i], rests[i])
}

/// Repeats a wrapped parser within an inclusive lower bound and an upper
/// limit.
///
/// The first `lower_limit` repetitions are mandatory: the first failure among
/// them fails the whole combinator with the inner error. Repetitions beyond
/// that are attempted greedily until the upper limit forbids another one or
/// the wrapped parser fails once; that failure is swallowed and the combinator
/// succeeds with what was collected.
pub struct Between<P> where P: Parser {
    /// How many repetitions must succeed.
    pub lower_limit: u8,
    /// The bound past which no further repetition is attempted.
    pub upper_limit: Limit,
    /// The repeated parser.
    pub parser: P,
}

impl<P> Between<P> where P: Parser {
    /// A completed run: `vals` were parsed in order leaving `rest`, the
    /// mandatory phase was satisfied, the greedy phase respected the upper
    /// limit, and the run stopped for one of the two reasons the algorithm
    /// stops: the limit forbade another repetition, or the wrapped parser
    /// could fail on what is left.
    pub open spec fn run_to(
        self,
        s: Seq<char>,
        vals: Seq<<P as Parser>::Value>,
        rests: Seq<Seq<char>>,
        rest: Seq<char>,
    ) -> bool {
        &&& chain_of(self.parser, s, vals, rests)
        &&& rest == step_input(s, rests, vals.len() as int)
        &&& vals.len() >= self.lower_limit
        &&& self.within_cap(vals.len() as int)
        &&& (!self.upper_limit.allows(vals.len() as int) || exists|e: ParseError|
            self.parser.err_on(rest, e))
    }

    /// No repetition beyond the mandatory ones starts once the upper limit is
    /// reached, so a run never collects more values than the larger of the
    /// mandatory count and a finite bound.
    pub open spec fn within_cap(self, n: int) -> bool {
        match self.upper_limit {
            Limit::At(threshold) => n <= self.lower_limit as int || n <= threshold as int,
            Limit::Infinity => true,
        }
    }

    /// A failed run: some mandatory repetition failed with `e` after the
    /// earlier ones succeeded.
    pub open spec fn fail_at(
        self,
        s: Seq<char>,
        vals: Seq<<P as Parser>::Value>,
        rests: Seq<Seq<char>>,
        e: ParseError,
    ) -> bool {
        &&& chain_of(self.parser, s, vals, rests)
        &&& vals.len() < self.lower_limit
        &&& self.parser.err_on(step_input(s, rests, vals.len() as int), e)
    }

    /// What remains of a finite bound: fuel for the greedy phase's
    /// termination argument.
    pub open spec fn finite_gap(self, n: int) -> int {
        match self.upper_limit {
            Limit::At(threshold) => threshold as int - n,
            Limit::Infinity => 0,
        }
    }
}

impl<P> Parser for Between<P> where P: Parser {
    type Value = Vec<<P as Parser>::Value>;

    open spec fn wf(&self) -> bool {
        &&& self.parser.wf()
        &&& (self.upper_limit is Infinity ==> self.parser.consuming())
    }

    open spec fn consuming(&self) -> bool {
        self.lower_limit >= 1 && self.parser.consuming()
    }

    open spec fn ok_on(&self, s: Seq<char>, v: Vec<<P as Parser>::Value>, rest: Seq<char>) -> bool {
        exists|rests: Seq<Seq<char>>| #[trigger] self.run_to(s, v@, rests, rest)
    }

    open spec fn err_on(&self, s: Seq<char>, e: ParseError) -> bool {
        exists|vals: Seq<<P as Parser>::Value>, rests: Seq<Seq<char>>|
            #[trigger] self.fail_at(s, vals, rests, e)
    }

    fn parse<'a>(&self, input: &'a str) -> (r: Result<
        (Vec<<P as Parser>::Value>, &'a str),
        ParseError,
    >) {
        let mut result: Vec<<P as Parser>::Value> = Vec::new();
        let mut source = input;
        let ghost mut rests: Seq<Seq<char>> = Seq::empty();
        proof {
            assert(input@ =~= input@.skip(0));
        }
        while result.len() < self.lower_limit as usize
            invariant
                self.wf(),
                rests.len() == result@.len(),
                result@.len() <= self.lower_limit as int,
                chain_of(self.parser, input@, result@, rests),
                source@ == step_input(input@, rests, result@.len() as int),
                is_suffix_of(source@, input@),
                self.parser.consuming() ==> result@.len() <= input@.len() - source@.len(),
            decreases self.lower_limit as int - result@.len(),
        {
            let attempt = self.parser.parse(source);
            match attempt {
                Ok((value, rest)) => {
                    let ghost prev_vals = result@;
                    let ghost prev_rests = rests;
                    let ghost prev_source = source@;
                    result.push(value);
                    proof {
                        rests = rests.push(rest@);
                        lemma_suffix_transitive(rest@, prev_source, input@);
                        assert forall|i: int| 0 <= i < result@.len() implies self.parser.ok_on(
                            #[trigger] step_input(input@, rests, i),
                            result@[i],
                            rests[i],
                        ) by {
                            if i < prev_vals.len() {
                                assert(step_input(input@, rests, i) == step_input(
                                    input@,
                                    prev_rests,
                                    i,
                                ));
                            } else {
                                assert(step_input(input@, rests, i) == prev_source);
                            }
                        }
                    }
                    source = rest;
                }
                Err(e) => {
                    proof {
                        assert(self.fail_at(input@, result@, rests, e));
                    }
                    return Err(e);
                }
            }
        }
        loop
            invariant
                self.wf(),
                rests.len() == result@.len(),
                result@.len() >= self.lower_limit as int,
                self.within_cap(result@.len() as int),
                chain_of(self.parser, input@, result@, rests),
                source@ == step_input(input@, rests, result@.len() as int),
                is_suffix_of(source@, input@),
                self.parser.consuming() ==> result@.len() <= input@.len() - source@.len(),
            decreases self.finite_gap(result@.len() as int), source@.len(),
        {
            let more = match &self.upper_limit {
                Limit::At(threshold) => result.len() < *threshold as usize,
                Limit::Infinity => true,
            };
            if !more {
                proof {
                    assert(self.run_to(input@, result@, rests, source@));
                }
                return Ok((result, source));
            }
            let attempt = self.parser.parse(source);
            match attempt {
                Ok((value, rest)) => {
                    let ghost prev_vals = result@;
                    let ghost prev_rests = rests;
                    let ghost prev_source = source@;
                    result.push(value);
                    proof {
                        rests = rests.push(rest@);
                        lemma_suffix_transitive(rest@, prev_source, input@);
                        assert forall|i: int| 0 <= i < result@.len() implies self.parser.ok_on(
                            #[trigger] step_input(input@, rests, i),
                            result@[i],
                            rests[i],
                        ) by {
                            if i < prev_vals.len() {
                                assert(step_input(input@, rests, i) == step_input(
                                    input@,
                                    prev_rests,
                                    i,
                                ));
                            } else {
                                assert(step_input(input@, rests, i) == prev_source);
                            }
                        }
                    }
                    source = rest;
                }
                Err(e) => {
                    proof {
                        assert(self.parser.err_on(source@, e));
                        assert(self.run_to(input@, result@, rests, source@));
                    }
                    return Ok((result, source));
                }
            }
        }
    }
}

impl<P> Between<P> where P: Parser {
    /// Build a repetition of `parser` between `lower_limit` and `upper_limit`.
    pub fn new(lower_limit: u8, upper_limit: Limit, parser: P) -> (r: Self)
        ensures
            r.lower_limit == lower_limit,
            r.upper_limit == upper_limit,
            r.parser == parser,
    {
        Between { lower_limit, upper_limit, parser }
    }
}

/// A parser that repeats `parser` at least `lower_limit` and at most
/// `upper_limit` times, greedily.
pub fn between<P: Parser>(lower_limit: u8, upper_limit: u8, parser: P) -> (r: Between<P>)
    ensures
        r.lower_limit == lower_limit,
        r.upper_limit == Limit::At(upper_limit),
        r.parser == parser,
{
    Between::new(lower_limit, Limit::At(upper_limit), parser)
}

/// A parser that repeats `parser` at least `lower_limit` times and then as
/// often as it keeps succeeding.
pub fn at_least<P: Parser>(lower_limit: u8, parser: P) -> (r: Between<P>)
    ensures
        r.lower_limit == lower_limit,
        r.upper_limit == Limit::Infinity,
        r.parser == parser,
{
    Between::new(lower_limit, Limit::Infinity, parser)
}

/// A parser that repeats `parser` as often as it succeeds; it never fails.
pub fn many<P: Parser>(parser: P) -> (r: Between<P>)
    ensures
        r.lower_limit == 0,
        r.upper_limit == Limit::Infinity,
        r.parser == parser,
{
    at_least(0, parser)
}

} // verus!
