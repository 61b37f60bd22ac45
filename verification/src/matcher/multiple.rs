//! Zero-or-more repetition matcher; stops when the matcher fails or makes no progress.

use vstd::prelude::*;

use crate::matcher::repeat::{
    lemma_repeat_props, lemma_repetition_law, repetition_law, run_repeat_loop, spec_decode_bounds, spec_greedy, spec_repeat_end, RepeatBound, RepeatBounds,
    Repeat,
};
use crate::matcher::{matched_at, no_match, Matcher, MatcherRunError};

verus! {

/// Greedy `matcher*`: always reports success.
#[derive(Clone, Debug)]
pub struct Multiple<Match> {
    matcher: Match,
}

impl<Match> Multiple<Match> {
    /// The repeated matcher.
    pub closed spec fn inner(self) -> Match {
        self.matcher
    }

    fn new(matcher: Match) -> (r: Self)
        ensures
            r.inner() == matcher,
    {
        Self { matcher }
    }
}

/// See [`Multiple`].
pub fn many<Match>(matcher: Match) -> (r: Multiple<Match>)
    ensures
        r.inner() == matcher,
{
    Multiple::new(matcher)
}

impl<T, Match: Matcher<T>> Matcher<T> for Multiple<Match> {
    open spec fn spec_match(&self, input: Seq<T>, pos: int) -> Result<Option<int>, MatcherRunError> {
        spec_repeat_end(self.inner(), input, pos, 0, None)
    }

    proof fn lemma_match_bounds(&self, input: Seq<T>, pos: int) {
        lemma_repeat_props(self.inner(), input, pos, 0, None);
    }

    fn match_at(&self, input: &[T], pos: usize) -> (r: Result<Option<usize>, MatcherRunError>) {
        let r = run_repeat_loop(&self.matcher, 0, None, input, pos);
        proof {
            self.lemma_match_bounds(input@, pos as int);
        }
        r
    }
}

/// `many(m)` never fails: at every cursor inside the input it matches
/// `m` greedily as often as it makes progress, and where it stops `m`
/// either does not match or matches without progress. Only an error raised
/// by `m` keeps it from reporting a match, and that error is handed on.
pub proof fn lemma_many_always_matches<T, M: Matcher<T>>(m: Multiple<M>, input: Seq<T>, pos: int)
    requires
        0 <= pos <= input.len(),
    ensures
        m.spec_match(input, pos) == (match spec_greedy(m.inner(), input, pos, None) {
            Ok(g) => Ok(Some(g.0)),
            Err(e) => Err(e),
        }),
        m.spec_match(input, pos) != no_match(),
        m.spec_match(input, pos) matches Ok(Some(e)) ==> (m.inner().spec_match(input, e) == no_match() || m.inner().spec_match(input, e) == matched_at(e)),
{
    lemma_repeat_props(m.inner(), input, pos, 0, None);
}

/// Every outcome of `many(m)` is explained by the matches of `m` alone
/// (see [`repetition_law`] with no least and no greatest count): a match is
/// the chain of consecutive matches of `m` from the cursor, each moving the
/// cursor, up to where `m` no longer matches with progress.
pub proof fn lemma_many_law<T, M: Matcher<T>>(m: Multiple<M>, input: Seq<T>, pos: int)
    requires
        0 <= pos <= input.len(),
    ensures
        repetition_law(m.inner(), input, pos, 0, None, m.spec_match(input, pos)),
{
    lemma_repetition_law(m.inner(), input, pos, 0, None);
}

/// `many(m)` takes one step of `m` at a time: where `m` does not match, or
/// matches without moving, `many(m)` matches the empty run; where `m`
/// matches and moves the cursor to `p`, `many(m)` continues exactly as it
/// would from `p`; an error raised by `m` is handed on.
pub proof fn lemma_many_step<T, M: Matcher<T>>(m: Multiple<M>, input: Seq<T>, pos: int)
    requires
        0 <= pos <= input.len(),
    ensures
        m.inner().spec_match(input, pos) == no_match() ==> m.spec_match(input, pos)
            == matched_at(pos),
        m.inner().spec_match(input, pos) == matched_at(pos) ==> m.spec_match(input, pos)
            == matched_at(pos),
        ({
            let step = m.inner().spec_match(input, pos);
            step is Ok && step->Ok_0 is Some && step->Ok_0->Some_0 != pos ==> m.spec_match(
                input,
                pos,
            ) == m.spec_match(input, step->Ok_0->Some_0)
        }),
        m.inner().spec_match(input, pos) matches Err(e) ==> m.spec_match(input, pos) == Err::<
            Option<int>,
            MatcherRunError,
        >(e),
{
    m.inner().lemma_match_bounds(input, pos);
}

/// `many(m)` behaves as `repeat(m, 0..)`.
pub proof fn lemma_many_is_repeat_from_zero<T, M: Matcher<T>>(
    m: Multiple<M>,
    r: Repeat<M>,
    input: Seq<T>,
    pos: int,
)
    requires
        r.inner() == m.inner(),
        (r.min_count(), r.max_count()) == spec_decode_bounds(
            RepeatBounds { start: RepeatBound::Included(0), end: RepeatBound::Unbounded },
        ),
    ensures
        m.spec_match(input, pos) == r.spec_match(input, pos),
{
}

} // verus!
