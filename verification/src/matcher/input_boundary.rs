//! Zero-width matchers at the start or end of the input.

use vstd::prelude::*;

use crate::matcher::primitives::{negative_lookahead, AnyToken, NegativeLookahead};
use crate::matcher::{matched_at, no_match, Matcher, MatcherRunError};

verus! {

/// Succeeds when no tokens remain: the negative lookahead of [`AnyToken`].
pub fn end_of_input() -> (m: NegativeLookahead<AnyToken>)
    ensures
        m.inner() == AnyToken,
{
    negative_lookahead(AnyToken)
}

/// `end_of_input()` succeeds exactly at the end of the input, and consumes nothing there.
pub proof fn lemma_end_of_input_only_at_end<T>(
    m: NegativeLookahead<AnyToken>,
    input: Seq<T>,
    pos: int,
)
    requires
        m.inner() == AnyToken,
        0 <= pos <= input.len(),
    ensures
        m.spec_match(input, pos) == (if pos == input.len() {
            matched_at(pos)
        } else {
            no_match()
        }),
{
}

/// Zero-width matcher: succeeds when the cursor is at the start of the input.
#[derive(Clone, Copy, Debug)]
pub struct StartOfInput;

/// See [`StartOfInput`].
pub fn start_of_input() -> (m: StartOfInput)
    ensures
        m == StartOfInput,
{
    StartOfInput
}

/// `start_of_input()` succeeds only at the start of the input, and
/// consumes nothing there.
pub proof fn lemma_start_of_input_only_at_start<T>(s: StartOfInput, input: Seq<T>, pos: int)
    requires
        0 <= pos <= input.len(),
    ensures
        s.spec_match(input, pos) == (if pos == 0 {
            matched_at(0)
        } else {
            no_match()
        }),
{
}

impl<T> Matcher<T> for StartOfInput {
    open spec fn spec_match(&self, input: Seq<T>, pos: int) -> Result<Option<int>, MatcherRunError> {
        if pos == 0 {
            Ok(Some(pos))
        } else {
            Ok(None)
        }
    }

    proof fn lemma_match_bounds(&self, input: Seq<T>, pos: int) {
    }

    fn match_at(&self, input: &[T], pos: usize) -> (r: Result<Option<usize>, MatcherRunError>) {
        if pos == 0 {
            Ok(Some(pos))
        } else {
            Ok(None)
        }
    }
}

} // verus!
