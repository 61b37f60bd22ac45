//! The matcher interface and the whole-input entry points.

pub mod input_boundary;
pub mod primitives;
pub mod multiple;
pub mod one_or_more;
pub mod repeat;

pub use input_boundary::{end_of_input, start_of_input, StartOfInput};
pub use multiple::{many, Multiple};
pub use one_or_more::{one_or_more, OneOrMore};
pub use primitives::{
    negative_lookahead, raise_error, token_range, AnyToken, NegativeLookahead, RaiseError,
    TokenRange,
};
pub use repeat::{decode_bounds, repeat, run_repeat_loop, Repeat, RepeatBound, RepeatBounds};

use vstd::prelude::*;

verus! {

/// An error raised by a matcher while it runs. It aborts the match that
/// is in progress: every combinator hands it on unchanged.
#[derive(Clone, Copy, Debug, PartialEq, Eq)]
pub struct MatcherRunError {
    /// The cursor at which the error was raised.
    pub pos: usize,
}

/// Reads an executable match outcome in the mathematical model.
pub open spec fn outcome(r: Result<Option<usize>, MatcherRunError>) -> Result<
    Option<int>,
    MatcherRunError,
> {
    match r {
        Ok(Some(p)) => Ok(Some(p as int)),
        Ok(None) => Ok(None),
        Err(e) => Err(e),
    }
}

/// The outcome of a match that ends at cursor `end`.
pub open spec fn matched_at(end: int) -> Result<Option<int>, MatcherRunError> {
    Ok(Some(end))
}

/// The outcome of a matcher that does not match.
pub open spec fn no_match() -> Result<Option<int>, MatcherRunError> {
    Ok(None)
}

/// A matcher over tokens of type `T`.
///
/// `spec_match(input, pos)` is `Ok(Some(end))` when the matcher succeeds at
/// cursor `pos` and leaves the cursor at `end`, `Ok(None)` when it does not
/// match there, and `Err(e)` when running it raised the error `e`.
pub trait Matcher<T> {
    /// What the matcher does at cursor `pos` of `input`.
    spec fn spec_match(&self, input: Seq<T>, pos: int) -> Result<Option<int>, MatcherRunError>;

    /// A successful match never moves the cursor backwards or past the end.
    proof fn lemma_match_bounds(&self, input: Seq<T>, pos: int)
        requires
            0 <= pos <= input.len(),
        ensures
            self.spec_match(input, pos) matches Ok(Some(end)) ==> pos <= end <= input.len(),
    ;

    /// Runs the matcher at cursor `pos`.
    fn match_at(&self, input: &[T], pos: usize) -> (r: Result<Option<usize>, MatcherRunError>)
        requires
            pos <= input@.len(),
        ensures
            outcome(r) == self.spec_match(input@, pos as int),
            r matches Ok(Some(end)) ==> pos <= end <= input@.len(),
    ;
}

/// Whether `m` matches the whole of `input`, from its start to its end;
/// an error raised while matching is handed on.
pub fn parse_whole_input<T, M: Matcher<T>>(m: &M, input: &[T]) -> (r: Result<
    bool,
    MatcherRunError,
>)
    ensures
        r == (match m.spec_match(input@, 0) {
            Ok(Some(end)) => Ok(end == input@.len()),
            Ok(None) => Ok(false),
            Err(e) => Err(e),
        }),
{
    match m.match_at(input, 0) {
        Ok(Some(end)) => Ok(end == input.len()),
        Ok(None) => Ok(false),
        Err(e) => Err(e),
    }
}

/// The characters of `s`, in order.
pub fn str_chars(s: &str) -> (r: Vec<char>)
    ensures
        r@ == s@,
{
    broadcast use vstd::string::axiom_spec_iter;

    let mut out: Vec<char> = Vec::new();
    for c in it: s.chars()
        invariant
            out@.len() == it.index(),
            forall|i: int| 0 <= i < out@.len() ==> out@[i] == it.seq()[i],
    {
        out.push(c);
    }
    assert(out@ =~= s@);
    out
}

/// Whether `m` matches the whole of the string `s`, read as characters;
/// an error raised while matching is handed on.
pub fn parse_str<M: Matcher<char>>(m: &M, s: &str) -> (r: Result<bool, MatcherRunError>)
    ensures
        r == (match m.spec_match(s@, 0) {
            Ok(Some(end)) => Ok(end == s@.len()),
            Ok(None) => Ok(false),
            Err(e) => Err(e),
        }),
{
    let chars = str_chars(s);
    parse_whole_input(m, chars.as_slice())
}

} // verus!
