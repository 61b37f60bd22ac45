//! Basic matchers: single tokens, token ranges, literals, sequences and lookahead.

use vstd::prelude::*;

use crate::matcher::{Matcher, MatcherRunError};

verus! {

/// Matches any single token.
#[derive(Clone, Copy, Debug)]
pub struct AnyToken;

impl<T> Matcher<T> for AnyToken {
    open spec fn spec_match(&self, input: Seq<T>, pos: int) -> Result<Option<int>, MatcherRunError> {
        if 0 <= pos < input.len() {
            Ok(Some(pos + 1))
        } else {
            Ok(None)
        }
    }

    proof fn lemma_match_bounds(&self, input: Seq<T>, pos: int) {
    }

    fn match_at(&self, input: &[T], pos: usize) -> (r: Result<Option<usize>, MatcherRunError>) {
        if pos < input.len() {
            Ok(Some(pos + 1))
        } else {
            Ok(None)
        }
    }
}

/// Raises a [`MatcherRunError`] at the cursor, aborting the match in progress.
#[derive(Clone, Copy, Debug)]
pub struct RaiseError;

/// See [`RaiseError`].
pub fn raise_error() -> (m: RaiseError)
    ensures
        m == RaiseError,
{
    RaiseError
}

impl<T> Matcher<T> for RaiseError {
    open spec fn spec_match(&self, input: Seq<T>, pos: int) -> Result<Option<int>, MatcherRunError> {
        Err(MatcherRunError { pos: pos as usize })
    }

    proof fn lemma_match_bounds(&self, input: Seq<T>, pos: int) {
    }

    fn match_at(&self, input: &[T], pos: usize) -> (r: Result<Option<usize>, MatcherRunError>) {
        Err(MatcherRunError { pos })
    }
}

/// Zero-width matcher: succeeds exactly where `matcher` does not match, and
/// consumes nothing. An error raised by `matcher` is handed on.
#[derive(Clone, Debug)]
pub struct NegativeLookahead<Match> {
    matcher: Match,
}

impl<Match> NegativeLookahead<Match> {
    /// The matcher whose failure this lookahead requires.
    pub closed spec fn inner(self) -> Match {
        self.matcher
    }
}

/// See [`NegativeLookahead`].
pub fn negative_lookahead<Match>(matcher: Match) -> (m: NegativeLookahead<Match>)
    ensures
        m.inner() == matcher,
{
    NegativeLookahead { matcher }
}

impl<T, Match: Matcher<T>> Matcher<T> for NegativeLookahead<Match> {
    open spec fn spec_match(&self, input: Seq<T>, pos: int) -> Result<Option<int>, MatcherRunError> {
        match self.inner().spec_match(input, pos) {
            Ok(Some(_)) => Ok(None),
            Ok(None) => Ok(Some(pos)),
            Err(e) => Err(e),
        }
    }

    proof fn lemma_match_bounds(&self, input: Seq<T>, pos: int) {
    }

    fn match_at(&self, input: &[T], pos: usize) -> (r: Result<Option<usize>, MatcherRunError>) {
        match self.matcher.match_at(input, pos) {
            Ok(Some(_)) => Ok(None),
            Ok(None) => Ok(Some(pos)),
            Err(e) => Err(e),
        }
    }
}

/// A single character matches itself.
impl Matcher<char> for char {
    open spec fn spec_match(&self, input: Seq<char>, pos: int) -> Result<Option<int>, MatcherRunError> {
        if 0 <= pos < input.len() && input[pos] == *self {
            Ok(Some(pos + 1))
        } else {
            Ok(None)
        }
    }

    proof fn lemma_match_bounds(&self, input: Seq<char>, pos: int) {
    }

    fn match_at(&self, input: &[char], pos: usize) -> (r: Result<Option<usize>, MatcherRunError>) {
        if pos < input.len() && input[pos] == *self {
            Ok(Some(pos + 1))
        } else {
            Ok(None)
        }
    }
}

/// Matches one character `c` with `start <= c <= end`.
#[derive(Clone, Copy, Debug)]
pub struct TokenRange {
    pub start: char,
    pub end: char,
}

/// See [`TokenRange`].
pub fn token_range(start: char, end: char) -> (m: TokenRange)
    ensures
        m.start == start,
        m.end == end,
{
    TokenRange { start, end }
}

impl Matcher<char> for TokenRange {
    open spec fn spec_match(&self, input: Seq<char>, pos: int) -> Result<Option<int>, MatcherRunError> {
        if 0 <= pos < input.len() && self.start <= input[pos] && input[pos] <= self.end {
            Ok(Some(pos + 1))
        } else {
            Ok(None)
        }
    }

    proof fn lemma_match_bounds(&self, input: Seq<char>, pos: int) {
    }

    fn match_at(&self, input: &[char], pos: usize) -> (r: Result<Option<usize>, MatcherRunError>) {
        if pos < input.len() && self.start <= input[pos] && input[pos] <= self.end {
            Ok(Some(pos + 1))
        } else {
            Ok(None)
        }
    }
}

/// A string literal matches exactly its characters, in order.
impl<'a> Matcher<char> for &'a str {
    open spec fn spec_match(&self, input: Seq<char>, pos: int) -> Result<Option<int>, MatcherRunError> {
        let lit = (*self)@;
        if 0 <= pos && pos + lit.len() <= input.len() && input.subrange(pos, pos + lit.len())
            == lit {
            Ok(Some(pos + lit.len()))
        } else {
            Ok(None)
        }
    }

    proof fn lemma_match_bounds(&self, input: Seq<char>, pos: int) {
    }

    fn match_at(&self, input: &[char], pos: usize) -> (r: Result<Option<usize>, MatcherRunError>) {
        let lit: &str = *self;
        let n = lit.unicode_len();
        if n > input.len() - pos {
            return Ok(None);
        }
        let mut i: usize = 0;
        while i < n
            invariant
                n == lit@.len(),
                lit@ == (*self)@,
                pos + n <= input@.len(),
                i <= n,
                forall|j: int| 0 <= j < i ==> input@[pos + j] == lit@[j],
            decreases n - i,
        {
            if input[pos + i] != lit.get_char(i) {
                let ghost window = input@.subrange(pos as int, pos + n);
                assert(window[i as int] != lit@[i as int]);
                assert(window != lit@);
                return Ok(None);
            }
            i = i + 1;
        }
        assert(input@.subrange(pos as int, pos + n) =~= lit@);
        Ok(Some(pos + n))
    }
}

/// The empty sequence: always matches, consuming nothing.
impl<T> Matcher<T> for () {
    open spec fn spec_match(&self, input: Seq<T>, pos: int) -> Result<Option<int>, MatcherRunError> {
        Ok(Some(pos))
    }

    proof fn lemma_match_bounds(&self, input: Seq<T>, pos: int) {
    }

    fn match_at(&self, input: &[T], pos: usize) -> (r: Result<Option<usize>, MatcherRunError>) {
        Ok(Some(pos))
    }
}

/// A pair matches its first component, then its second from where the first
/// ended. An error raised by either component is handed on.
impl<T, A: Matcher<T>, B: Matcher<T>> Matcher<T> for (A, B) {
    open spec fn spec_match(&self, input: Seq<T>, pos: int) -> Result<Option<int>, MatcherRunError> {
        match self.0.spec_match(input, pos) {
            Ok(Some(p)) => self.1.spec_match(input, p),
            Ok(None) => Ok(None),
            Err(e) => Err(e),
        }
    }

    proof fn lemma_match_bounds(&self, input: Seq<T>, pos: int) {
        self.0.lemma_match_bounds(input, pos);
        if let Ok(Some(p)) = self.0.spec_match(input, pos) {
            self.1.lemma_match_bounds(input, p);
        }
    }

    fn match_at(&self, input: &[T], pos: usize) -> (r: Result<Option<usize>, MatcherRunError>) {
        match self.0.match_at(input, pos) {
            Ok(Some(p)) => self.1.match_at(input, p),
            Ok(None) => Ok(None),
            Err(e) => Err(e),
        }
    }
}

/// A triple matches its three components one after another. An error
/// raised by any component is handed on.
impl<T, A: Matcher<T>, B: Matcher<T>, C: Matcher<T>> Matcher<T> for (A, B, C) {
    open spec fn spec_match(&self, input: Seq<T>, pos: int) -> Result<Option<int>, MatcherRunError> {
        match self.0.spec_match(input, pos) {
            Ok(Some(p)) => match self.1.spec_match(input, p) {
                Ok(Some(q)) => self.2.spec_match(input, q),
                Ok(None) => Ok(None),
                Err(e) => Err(e),
            },
            Ok(None) => Ok(None),
            Err(e) => Err(e),
        }
    }

    proof fn lemma_match_bounds(&self, input: Seq<T>, pos: int) {
        self.0.lemma_match_bounds(input, pos);
        if let Ok(Some(p)) = self.0.spec_match(input, pos) {
            self.1.lemma_match_bounds(input, p);
            if let Ok(Some(q)) = self.1.spec_match(input, p) {
                self.2.lemma_match_bounds(input, q);
            }
        }
    }

    fn match_at(&self, input: &[T], pos: usize) -> (r: Result<Option<usize>, MatcherRunError>) {
        match self.0.match_at(input, pos) {
            Ok(Some(p)) => match self.1.match_at(input, p) {
                Ok(Some(q)) => self.2.match_at(input, q),
                Ok(None) => Ok(None),
                Err(e) => Err(e),
            },
            Ok(None) => Ok(None),
            Err(e) => Err(e),
        }
    }
}

} // verus!
