//! One-or-more repetition (`matcher+`).

use vstd::prelude::*;

use crate::matcher::multiple::Multiple;
use crate::matcher::repeat::{
    lemma_repeat_props, lemma_repetition_law, repetition_law, run_repeat_loop, spec_decode_bounds, spec_mandatory, spec_repeat_end,
    RepeatBound, RepeatBounds, Repeat,
};
use crate::matcher::{Matcher, MatcherRunError};

verus! {

/// Requires at least one successful `matcher`, then behaves like greedy repetition.
#[derive(Clone, Debug)]
pub struct OneOrMore<Match> {
    matcher: Match,
}

impl<Match> OneOrMore<Match> {
    /// The repeated matcher.
    pub closed spec fn inner(self) -> Match {
        self.matcher
    }

    /// See [`one_or_more`].
    pub fn new(matcher: Match) -> (r: Self)
        ensures
            r.inner() == matcher,
    {
        Self { matcher }
    }
}

/// `e+`: match one or more repetitions of `matcher`.
pub fn one_or_more<Match>(matcher: Match) -> (r: OneOrMore<Match>)
    ensures
        r.inner() == matcher,
{
    OneOrMore::new(matcher)
}

impl<T, Match: Matcher<T>> Matcher<T> for OneOrMore<Match> {
    open spec fn spec_match(&self, input: Seq<T>, pos: int) -> Result<Option<int>, MatcherRunError> {
        spec_repeat_end(self.inner(), input, pos, 1, None)
    }

    proof fn lemma_match_bounds(&self, input: Seq<T>, pos: int) {
        lemma_repeat_props(self.inner(), input, pos, 1, None);
    }

    fn match_at(&self, input: &[T], pos: usize) -> (r: Result<Option<usize>, MatcherRunError>) {
        let r = run_repeat_loop(&self.matcher, 1, None, input, pos);
        proof {
            self.lemma_match_bounds(input@, pos as int);
        }
        r
    }
}

/// `e+` is `e` followed by `e*`: `one_or_more(m)` fails exactly where `m`
/// does not match, hands on an error that `m` raises there, and otherwise
/// continues as `many(m)` from where `m` ended.
pub proof fn lemma_one_or_more_is_one_then_many<T, M: Matcher<T>>(
    o: OneOrMore<M>,
    m: Multiple<M>,
    input: Seq<T>,
    pos: int,
)
    requires
        o.inner() == m.inner(),
    ensures
        o.spec_match(input, pos) == (match o.inner().spec_match(input, pos) {
            Ok(Some(p)) => m.spec_match(input, p),
            Ok(None) => Ok(None),
            Err(e) => Err(e),
        }),
{
    reveal_with_fuel(spec_mandatory, 2);
}

/// Every outcome of `one_or_more(m)` is explained by the matches of `m`
/// alone (see [`repetition_law`] with least count one and no greatest
/// count): a match is a chain of at least one consecutive match of `m` from
/// the cursor, each after the first moving the cursor, up to where `m` no
/// longer matches with progress; no match means `m` does not match at the
/// cursor.
pub proof fn lemma_one_or_more_law<T, M: Matcher<T>>(o: OneOrMore<M>, input: Seq<T>, pos: int)
    requires
        0 <= pos <= input.len(),
    ensures
        repetition_law(o.inner(), input, pos, 1, None, o.spec_match(input, pos)),
{
    lemma_repetition_law(o.inner(), input, pos, 1, None);
}

/// `one_or_more(m)` behaves as `repeat(m, 1..)`.
pub proof fn lemma_one_or_more_is_repeat_from_one<T, M: Matcher<T>>(
    o: OneOrMore<M>,
    r: Repeat<M>,
    input: Seq<T>,
    pos: int,
)
    requires
        r.inner() == o.inner(),
        (r.min_count(), r.max_count()) == spec_decode_bounds(
            RepeatBounds { start: RepeatBound::Included(1), end: RepeatBound::Unbounded },
        ),
    ensures
        o.spec_match(input, pos) == r.spec_match(input, pos),
{
}

} // verus!
