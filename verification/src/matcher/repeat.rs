//! Bounded repetition (`repeat(m, bounds)`) and the greedy repetition loop
//! shared by every repetition matcher.

use vstd::prelude::*;

use crate::matcher::{matched_at, no_match, outcome, Matcher, MatcherRunError};

verus! {

/// One end of a range of repetition counts.
#[derive(Clone, Copy, Debug, PartialEq, Eq)]
pub enum RepeatBound {
    /// No limit on this side.
    Unbounded,
    /// The count may equal the value.
    Included(usize),
    /// The count must differ from the value (lie strictly beyond it).
    Excluded(usize),
}

/// A range of repetition counts, read as Rust's range syntax reads:
/// `2..5` is `{ start: Included(2), end: Excluded(5) }`, `1..` is
/// `{ start: Included(1), end: Unbounded }`, `..=3` is
/// `{ start: Unbounded, end: Included(3) }`.
#[derive(Clone, Copy, Debug, PartialEq, Eq)]
pub struct RepeatBounds {
    pub start: RepeatBound,
    pub end: RepeatBound,
}

impl RepeatBounds {
    /// Whether the repetition count `c` lies in the range.
    pub open spec fn contains(self, c: int) -> bool {
        &&& match self.start {
            RepeatBound::Unbounded => true,
            RepeatBound::Included(n) => n <= c,
            RepeatBound::Excluded(n) => n < c,
        }
        &&& match self.end {
            RepeatBound::Unbounded => true,
            RepeatBound::Included(n) => c <= n,
            RepeatBound::Excluded(n) => c < n,
        }
    }
}

/// Whether `count` lies between a decoded minimum and inclusive maximum
/// (`None` meaning no maximum).
pub open spec fn count_admitted(min: nat, max: Option<nat>, count: int) -> bool {
    &&& min <= count
    &&& match max {
        Some(m) => count <= m,
        None => true,
    }
}

/// Reads an executable optional count as a mathematical one.
pub open spec fn opt_nat(o: Option<usize>) -> Option<nat> {
    match o {
        Some(n) => Some(n as nat),
        None => None,
    }
}

/// The decoded form of a range: its minimum count and its inclusive maximum.
/// A range that admits no count decodes to a pair whose maximum is below its
/// minimum.
pub open spec fn spec_decode_bounds(b: RepeatBounds) -> (nat, Option<nat>) {
    match b.start {
        RepeatBound::Excluded(n) if n == usize::MAX => (1, Some(0)),
        _ => {
            let min: nat = match b.start {
                RepeatBound::Unbounded => 0,
                RepeatBound::Included(n) => n as nat,
                RepeatBound::Excluded(n) => (n + 1) as nat,
            };
            match b.end {
                RepeatBound::Unbounded => (min, None),
                RepeatBound::Included(n) => (min, Some(n as nat)),
                RepeatBound::Excluded(n) => if n <= min {
                    if min == 0 {
                        (1, Some(0))
                    } else {
                        (min, Some((min - 1) as nat))
                    }
                } else {
                    (min, Some((n - 1) as nat))
                },
            }
        },
    }
}

/// Decodes a range of repetition counts into a minimum count and an
/// inclusive maximum (`None` = unbounded).
///
/// The decoded pair admits exactly the counts that the range contains.
pub fn decode_bounds(bounds: &RepeatBounds) -> (r: (usize, Option<usize>))
    ensures
        (r.0 as nat, opt_nat(r.1)) == spec_decode_bounds(*bounds),
        forall|c: int|
            0 <= c <= usize::MAX ==> (#[trigger] count_admitted(r.0 as nat, opt_nat(r.1), c)
                <==> bounds.contains(c)),
{
    let min: usize = match bounds.start {
        RepeatBound::Unbounded => 0,
        RepeatBound::Included(n) => n,
        RepeatBound::Excluded(n) => {
            if n == usize::MAX {
                return (1, Some(0));
            }
            n + 1
        },
    };
    let max_inclusive: Option<usize> = match bounds.end {
        RepeatBound::Unbounded => None,
        RepeatBound::Included(n) => Some(n),
        RepeatBound::Excluded(n) => {
            if n <= min {
                if min == 0 {
                    return (1, Some(0));
                }
                return (min, Some(min - 1));
            }
            Some(n - 1)
        },
    };
    (min, max_inclusive)
}

/// The cursor after `k` consecutive matches of `m` from `pos`: `Ok(None)`
/// if one of them does not match, `Err(e)` if one of them raises `e`.
/// Zero-width matches count.
pub open spec fn spec_mandatory<T, M: Matcher<T>>(
    m: M,
    input: Seq<T>,
    pos: int,
    k: nat,
) -> Result<Option<int>, MatcherRunError>
    decreases k,
{
    if k == 0 {
        Ok(Some(pos))
    } else {
        match spec_mandatory(m, input, pos, (k - 1) as nat) {
            Ok(Some(p)) => m.spec_match(input, p),
            other => other,
        }
    }
}

/// How many more repetitions a maximum leaves after `count` of them.
pub open spec fn remaining(max: Option<nat>, count: nat) -> Option<nat> {
    match max {
        Some(m) => Some((m - count) as nat),
        None => None,
    }
}

/// Greedy optional repetitions of `m` from `pos`, at most `left` of them
/// (`None` = no limit). Stops when `m` does not match or makes no progress;
/// an error raised by `m` aborts the run.
/// Returns the final cursor and the number of repetitions taken.
pub open spec fn spec_greedy<T, M: Matcher<T>>(
    m: M,
    input: Seq<T>,
    pos: int,
    left: Option<nat>,
) -> Result<(int, nat), MatcherRunError>
    decreases input.len() - pos,
{
    if left == Some(0nat) {
        Ok((pos, 0))
    } else {
        match m.spec_match(input, pos) {
            Ok(Some(p)) => if pos < p <= input.len() {
                let next = match left {
                    Some(l) => Some((l - 1) as nat),
                    None => None,
                };
                match spec_greedy(m, input, p, next) {
                    Ok(rest) => Ok((rest.0, rest.1 + 1)),
                    Err(e) => Err(e),
                }
            } else {
                Ok((pos, 0))
            },
            Ok(None) => Ok((pos, 0)),
            Err(e) => Err(e),
        }
    }
}

/// Repetition of `m` from `pos` with a mandatory minimum and an optional
/// inclusive maximum: `min` matches that must all succeed, then greedy
/// further matches up to the maximum, stopping early when `m` does not
/// match or makes no progress. Returns the final cursor and the total
/// count; `Ok(None)` when the maximum is below the minimum or a mandatory
/// match does not match; `Err(e)` as soon as `m` raises `e`.
pub open spec fn spec_repeat<T, M: Matcher<T>>(
    m: M,
    input: Seq<T>,
    pos: int,
    min: nat,
    max: Option<nat>,
) -> Result<Option<(int, nat)>, MatcherRunError> {
    if max matches Some(mx) && mx < min {
        Ok(None)
    } else {
        match spec_mandatory(m, input, pos, min) {
            Ok(Some(p)) => match spec_greedy(m, input, p, remaining(max, min)) {
                Ok(g) => Ok(Some((g.0, min + g.1))),
                Err(e) => Err(e),
            },
            Ok(None) => Ok(None),
            Err(e) => Err(e),
        }
    }
}

/// The final cursor of [`spec_repeat`].
pub open spec fn spec_repeat_end<T, M: Matcher<T>>(
    m: M,
    input: Seq<T>,
    pos: int,
    min: nat,
    max: Option<nat>,
) -> Result<Option<int>, MatcherRunError> {
    match spec_repeat(m, input, pos, min, max) {
        Ok(Some(r)) => Ok(Some(r.0)),
        Ok(None) => Ok(None),
        Err(e) => Err(e),
    }
}

/// Once a mandatory match has not matched or has raised an error, asking
/// for more matches gives the same outcome.
proof fn lemma_mandatory_stays<T, M: Matcher<T>>(
    m: M,
    input: Seq<T>,
    pos: int,
    k: nat,
    k2: nat,
)
    requires
        k <= k2,
        !(spec_mandatory(m, input, pos, k) is Ok && spec_mandatory(m, input, pos, k)->Ok_0 is Some),
    ensures
        spec_mandatory(m, input, pos, k2) == spec_mandatory(m, input, pos, k),
    decreases k2,
{
    if k2 > k {
        lemma_mandatory_stays(m, input, pos, k, (k2 - 1) as nat);
    }
}

/// A run of mandatory matches ends inside the input, at or after where it began.
proof fn lemma_mandatory_bounds<T, M: Matcher<T>>(m: M, input: Seq<T>, pos: int, k: nat)
    requires
        0 <= pos <= input.len(),
    ensures
        spec_mandatory(m, input, pos, k) matches Ok(Some(p)) ==> pos <= p <= input.len(),
    decreases k,
{
    if k > 0 {
        lemma_mandatory_bounds(m, input, pos, (k - 1) as nat);
        if let Ok(Some(p)) = spec_mandatory(m, input, pos, (k - 1) as nat) {
            m.lemma_match_bounds(input, p);
        }
    }
}

/// A greedy phase that raises no error ends inside the input, takes no
/// more repetitions than allowed, and stops only because the limit was
/// reached, `m` did not match, or `m` matched without progress.
proof fn lemma_greedy_props<T, M: Matcher<T>>(m: M, input: Seq<T>, pos: int, left: Option<nat>)
    requires
        0 <= pos <= input.len(),
    ensures
        spec_greedy(m, input, pos, left) matches Ok((e, n)) ==> {
            &&& pos <= e <= input.len()
            &&& (left matches Some(l) ==> n <= l)
            &&& (left == Some(n) || m.spec_match(input, e) == no_match() || m.spec_match(input, e) == matched_at(e))
        },
    decreases input.len() - pos,
{
    m.lemma_match_bounds(input, pos);
    if left != Some(0nat) {
        if let Ok(Some(p)) = m.spec_match(input, pos) {
            if pos < p <= input.len() {
                let next = match left {
                    Some(l) => Some((l - 1) as nat),
                    None => None,
                };
                lemma_greedy_props(m, input, p, next);
            }
        }
    }
}

/// What a successful repetition reports: where it ends, how many
/// repetitions it took, and why it stopped.
pub proof fn lemma_repeat_props<T, M: Matcher<T>>(
    m: M,
    input: Seq<T>,
    pos: int,
    min: nat,
    max: Option<nat>,
)
    requires
        0 <= pos <= input.len(),
    ensures
        spec_repeat(m, input, pos, min, max) matches Ok(Some((e, c))) ==> {
            &&& pos <= e <= input.len()
            &&& count_admitted(min, max, c as int)
            &&& (max == Some(c) || m.spec_match(input, e) == no_match() || m.spec_match(input, e) == matched_at(e))
        },
{
    lemma_mandatory_bounds(m, input, pos, min);
    if !(max matches Some(mx) && mx < min) {
        if let Ok(Some(p)) = spec_mandatory(m, input, pos, min) {
            lemma_greedy_props(m, input, p, remaining(max, min));
        }
    }
}

/// An error raised by `m` at the cursor aborts the repetition there,
/// whenever the repetition runs `m` at all (its range is not empty and
/// does not cap the count at zero).
pub proof fn lemma_repeat_hands_on_errors<T, M: Matcher<T>>(
    m: M,
    input: Seq<T>,
    pos: int,
    min: nat,
    max: Option<nat>,
    e: MatcherRunError,
)
    requires
        max matches Some(mx) ==> min <= mx && 1 <= mx,
        m.spec_match(input, pos) == Err::<Option<int>, MatcherRunError>(e),
    ensures
        spec_repeat(m, input, pos, min, max) == Err::<Option<(int, nat)>, MatcherRunError>(e),
        spec_repeat_end(m, input, pos, min, max) == Err::<Option<int>, MatcherRunError>(e),
{
    if min >= 1 {
        assert(spec_mandatory(m, input, pos, 0) == Ok::<Option<int>, MatcherRunError>(Some(pos)));
        assert(spec_mandatory(m, input, pos, 1) == Err::<Option<int>, MatcherRunError>(e));
        lemma_mandatory_stays(m, input, pos, 1, min);
    }
}

/// `ps` lists cursors joined by consecutive matches of `m`: each match
/// starts at `ps[i]`, where the previous one ended, and ends at `ps[i + 1]`.
/// The chain takes `ps.len() - 1` matches from `ps[0]` to `ps.last()`.
pub open spec fn is_match_chain<T, M: Matcher<T>>(m: M, input: Seq<T>, ps: Seq<int>) -> bool {
    &&& ps.len() >= 1
    &&& forall|i: int|
        0 <= i < ps.len() - 1 ==> #[trigger] m.spec_match(input, ps[i]) == matched_at(ps[i + 1])
}

/// Every match of the chain from index `from` on moves the cursor forward.
pub open spec fn advances_from(ps: Seq<int>, from: int) -> bool {
    forall|i: int| from <= i < ps.len() - 1 ==> #[trigger] ps[i] < ps[i + 1]
}

/// What a repetition of `m` from `pos`, with least count `min` and greatest
/// count `max`, may report, in terms of the matches of `m` alone:
/// - a match ending at `end` is a chain of consecutive matches of `m` from
///   `pos` to `end`, whose count lies between `min` and `max`, whose matches
///   past the first `min` all move the cursor, and which stops only because
///   it reached `max`, or `m` does not match at `end`, or matches there
///   without moving;
/// - no match means `max` lies below `min`, or fewer than `min` consecutive
///   matches of `m` from `pos` are followed by a cursor where `m` does not
///   match;
/// - an error `e` means a chain of consecutive matches from `pos`, below
///   `max` in count and moving the cursor past the first `min`, is followed
///   by a cursor where `m` raises `e`.
pub open spec fn repetition_law<T, M: Matcher<T>>(
    m: M,
    input: Seq<T>,
    pos: int,
    min: nat,
    max: Option<nat>,
    out: Result<Option<int>, MatcherRunError>,
) -> bool {
    match out {
        Ok(Some(end)) => exists|ps: Seq<int>|
            {
                &&& #[trigger] is_match_chain(m, input, ps)
                &&& ps[0] == pos
                &&& ps.last() == end
                &&& count_admitted(min, max, ps.len() - 1)
                &&& advances_from(ps, min as int)
                &&& (max == Some((ps.len() - 1) as nat) || m.spec_match(input, end) == no_match()
                    || m.spec_match(input, end) == matched_at(end))
            },
        Ok(None) => (max matches Some(mx) && mx < min) || exists|ps: Seq<int>|
            {
                &&& #[trigger] is_match_chain(m, input, ps)
                &&& ps[0] == pos
                &&& ps.len() - 1 < min
                &&& m.spec_match(input, ps.last()) == no_match()
            },
        Err(e) => exists|ps: Seq<int>|
            {
                &&& #[trigger] is_match_chain(m, input, ps)
                &&& ps[0] == pos
                &&& (max matches Some(mx) ==> ps.len() - 1 < mx)
                &&& advances_from(ps, min as int)
                &&& m.spec_match(input, ps.last()) == Err::<Option<int>, MatcherRunError>(e)
            },
    }
}

/// The chain behind a run of mandatory matches that all matched.
proof fn lemma_mandatory_chain<T, M: Matcher<T>>(m: M, input: Seq<T>, pos: int, k: nat) -> (ps:
    Seq<int>)
    requires
        spec_mandatory(m, input, pos, k) matches Ok(Some(_)),
    ensures
        is_match_chain(m, input, ps),
        ps.len() == k + 1,
        ps[0] == pos,
        spec_mandatory(m, input, pos, k) == matched_at(ps.last()),
    decreases k,
{
    if k == 0 {
        seq![pos]
    } else {
        let prev = lemma_mandatory_chain(m, input, pos, (k - 1) as nat);
        let q = spec_mandatory(m, input, pos, k)->Ok_0->Some_0;
        let ps = prev.push(q);
        assert forall|i: int| 0 <= i < ps.len() - 1 implies #[trigger] m.spec_match(input, ps[i])
            == matched_at(ps[i + 1]) by {
            if i < prev.len() - 1 {
                assert(ps[i] == prev[i] && ps[i + 1] == prev[i + 1]);
            } else {
                assert(ps[i] == prev.last());
            }
        }
        ps
    }
}

/// Where a run of mandatory matches did not all match, some earlier run of
/// `j < k` of them did, and `m` gave the run's outcome right after it.
proof fn lemma_mandatory_stop<T, M: Matcher<T>>(m: M, input: Seq<T>, pos: int, k: nat) -> (j: nat)
    requires
        !(spec_mandatory(m, input, pos, k) matches Ok(Some(_))),
    ensures
        j < k,
        spec_mandatory(m, input, pos, j) matches Ok(Some(q)) && m.spec_match(input, q)
            == spec_mandatory(m, input, pos, k),
    decreases k,
{
    if spec_mandatory(m, input, pos, (k - 1) as nat) matches Ok(Some(_)) {
        (k - 1) as nat
    } else {
        lemma_mandatory_stop(m, input, pos, (k - 1) as nat)
    }
}

/// The chain behind a greedy phase that raised no error: each of its matches
/// moves the cursor.
proof fn lemma_greedy_chain<T, M: Matcher<T>>(
    m: M,
    input: Seq<T>,
    pos: int,
    left: Option<nat>,
) -> (qs: Seq<int>)
    requires
        spec_greedy(m, input, pos, left) is Ok,
    ensures
        is_match_chain(m, input, qs),
        qs[0] == pos,
        qs.len() == spec_greedy(m, input, pos, left)->Ok_0.1 + 1,
        qs.last() == spec_greedy(m, input, pos, left)->Ok_0.0,
        advances_from(qs, 0),
    decreases input.len() - pos,
{
    if left == Some(0nat) {
        seq![pos]
    } else {
        match m.spec_match(input, pos) {
            Ok(Some(p)) => if pos < p <= input.len() {
                let next = match left {
                    Some(l) => Some((l - 1) as nat),
                    None => None,
                };
                let rest = lemma_greedy_chain(m, input, p, next);
                let qs = seq![pos] + rest;
                assert forall|i: int| 0 <= i < qs.len() - 1 implies #[trigger] m.spec_match(
                    input,
                    qs[i],
                ) == matched_at(qs[i + 1]) && qs[i] < qs[i + 1] by {
                    if i > 0 {
                        assert(qs[i] == rest[i - 1] && qs[i + 1] == rest[i]);
                        assert(rest[i - 1] < rest[(i - 1) + 1]);
                    }
                }
                qs
            } else {
                seq![pos]
            },
            _ => seq![pos],
        }
    }
}

/// The chain behind a greedy phase that raised an error: fewer matches than
/// allowed, each moving the cursor, then the error.
proof fn lemma_greedy_error_chain<T, M: Matcher<T>>(
    m: M,
    input: Seq<T>,
    pos: int,
    left: Option<nat>,
) -> (qs: Seq<int>)
    requires
        spec_greedy(m, input, pos, left) is Err,
    ensures
        is_match_chain(m, input, qs),
        qs[0] == pos,
        left matches Some(l) ==> qs.len() - 1 < l,
        advances_from(qs, 0),
        m.spec_match(input, qs.last()) == Err::<Option<int>, MatcherRunError>(
            spec_greedy(m, input, pos, left)->Err_0,
        ),
    decreases input.len() - pos,
{
    match m.spec_match(input, pos) {
        Ok(Some(p)) => {
            let next = match left {
                Some(l) => Some((l - 1) as nat),
                None => None,
            };
            let rest = lemma_greedy_error_chain(m, input, p, next);
            let qs = seq![pos] + rest;
            assert forall|i: int| 0 <= i < qs.len() - 1 implies #[trigger] m.spec_match(
                input,
                qs[i],
            ) == matched_at(qs[i + 1]) && qs[i] < qs[i + 1] by {
                if i > 0 {
                    assert(qs[i] == rest[i - 1] && qs[i + 1] == rest[i]);
                    assert(rest[i - 1] < rest[(i - 1) + 1]);
                }
            }
            assert(qs.last() == rest.last());
            qs
        },
        _ => seq![pos],
    }
}

/// Joins a chain of `k` matches to a chain that starts where it ends.
proof fn lemma_join_chains<T, M: Matcher<T>>(
    m: M,
    input: Seq<T>,
    ps: Seq<int>,
    qs: Seq<int>,
) -> (rs: Seq<int>)
    requires
        is_match_chain(m, input, ps),
        is_match_chain(m, input, qs),
        qs[0] == ps.last(),
        advances_from(qs, 0),
    ensures
        is_match_chain(m, input, rs),
        rs.len() == ps.len() + qs.len() - 1,
        rs[0] == ps[0],
        rs.last() == qs.last(),
        advances_from(rs, ps.len() - 1),
{
    let rs = ps + qs.skip(1);
    assert forall|i: int| 0 <= i < rs.len() - 1 implies #[trigger] m.spec_match(input, rs[i])
        == matched_at(rs[i + 1]) by {
        if i < ps.len() - 1 {
            assert(rs[i] == ps[i] && rs[i + 1] == ps[i + 1]);
        } else {
            let j = i - (ps.len() - 1);
            assert(rs[i] == qs[j] && rs[i + 1] == qs[j + 1]);
        }
    }
    assert forall|i: int| ps.len() - 1 <= i < rs.len() - 1 implies #[trigger] rs[i] < rs[i + 1] by {
        let j = i - (ps.len() - 1);
        assert(rs[i] == qs[j] && rs[i + 1] == qs[j + 1]);
        assert(qs[j] < qs[j + 1]);
    }
    if qs.len() == 1 {
        assert(rs.last() == ps.last());
    } else {
        assert(rs.last() == qs[qs.len() - 1]);
    }
    rs
}

/// Every outcome of a repetition is explained by the matches of the
/// repeated matcher alone, as [`repetition_law`] says.
pub proof fn lemma_repetition_law<T, M: Matcher<T>>(
    m: M,
    input: Seq<T>,
    pos: int,
    min: nat,
    max: Option<nat>,
)
    requires
        0 <= pos <= input.len(),
    ensures
        repetition_law(m, input, pos, min, max, spec_repeat_end(m, input, pos, min, max)),
{
    lemma_repeat_props(m, input, pos, min, max);
    lemma_mandatory_bounds(m, input, pos, min);
    if max matches Some(mx) && mx < min {
    } else {
        match spec_mandatory(m, input, pos, min) {
            Ok(Some(p)) => {
                let ps = lemma_mandatory_chain(m, input, pos, min);
                match spec_greedy(m, input, p, remaining(max, min)) {
                    Ok(g) => {
                        let qs = lemma_greedy_chain(m, input, p, remaining(max, min));
                        let rs = lemma_join_chains(m, input, ps, qs);
                        assert(is_match_chain(m, input, rs));
                    },
                    Err(e) => {
                        let qs = lemma_greedy_error_chain(m, input, p, remaining(max, min));
                        let rs = lemma_join_chains(m, input, ps, qs);
                        assert(is_match_chain(m, input, rs));
                    },
                }
            },
            _ => {
                let j = lemma_mandatory_stop(m, input, pos, min);
                let ps = lemma_mandatory_chain(m, input, pos, j);
                assert(is_match_chain(m, input, ps));
            },
        }
    }
}

/// Greedy repetition with a mandatory minimum, an optional inclusive
/// maximum, and a guard against matches that make no progress. An error
/// raised by `matcher` is handed on at once.
pub fn run_repeat_loop<T, M: Matcher<T>>(
    matcher: &M,
    min: usize,
    max_inclusive: Option<usize>,
    input: &[T],
    pos: usize,
) -> (r: Result<Option<usize>, MatcherRunError>)
    requires
        pos <= input@.len(),
    ensures
        outcome(r) == spec_repeat_end(
            *matcher,
            input@,
            pos as int,
            min as nat,
            opt_nat(max_inclusive),
        ),
{
    if let Some(m) = max_inclusive {
        if m < min {
            return Ok(None);
        }
    }
    let ghost maxn = opt_nat(max_inclusive);
    let mut count: usize = 0;
    let mut cur: usize = pos;
    while count < min
        invariant
            count <= min,
            max_inclusive matches Some(mx) ==> min <= mx,
            cur <= input@.len(),
            spec_mandatory(*matcher, input@, pos as int, count as nat) == Ok::<
                Option<int>,
                MatcherRunError,
            >(Some(cur as int)),
        decreases min - count,
    {
        match matcher.match_at(input, cur) {
            Ok(Some(p)) => {
                cur = p;
                count = count + 1;
            },
            Ok(None) => {
                proof {
                    lemma_mandatory_stays(
                        *matcher,
                        input@,
                        pos as int,
                        (count + 1) as nat,
                        min as nat,
                    );
                }
                return Ok(None);
            },
            Err(e) => {
                proof {
                    lemma_mandatory_stays(
                        *matcher,
                        input@,
                        pos as int,
                        (count + 1) as nat,
                        min as nat,
                    );
                }
                return Err(e);
            },
        }
    }
    let ghost start = cur as int;
    let ghost total = spec_greedy(*matcher, input@, start, remaining(maxn, min as nat));
    let ghost mut k: nat = 0;
    loop
        invariant
            maxn == opt_nat(max_inclusive),
            max_inclusive matches Some(mx) ==> min <= mx,
            total == spec_greedy(*matcher, input@, start, remaining(maxn, min as nat)),
            spec_mandatory(*matcher, input@, pos as int, min as nat) == Ok::<
                Option<int>,
                MatcherRunError,
            >(Some(start)),
            cur <= input@.len(),
            count >= min,
            match spec_greedy(*matcher, input@, cur as int, remaining(maxn, (min + k) as nat)) {
                Ok(g) => total == Ok::<(int, nat), MatcherRunError>((g.0, g.1 + k)),
                Err(e) => total == Err::<(int, nat), MatcherRunError>(e),
            },
            max_inclusive matches Some(mx) ==> count == min + k && count <= mx,
        ensures
            total == Ok::<(int, nat), MatcherRunError>((cur as int, k)),
            count >= min,
            max_inclusive matches Some(mx) ==> count <= mx,
        decreases input@.len() - cur,
    {
        if let Some(mx) = max_inclusive {
            if count >= mx {
                break;
            }
        }
        let before = cur;
        match matcher.match_at(input, cur) {
            Ok(None) => {
                break;
            },
            Ok(Some(p)) => {
                if p == before {
                    break;
                }
                cur = p;
                count = count.saturating_add(1);
                proof {
                    k = k + 1;
                }
            },
            Err(e) => {
                return Err(e);
            },
        }
    }
    let within_max = match max_inclusive {
        Some(mx) => count <= mx,
        None => true,
    };
    if count >= min && within_max {
        Ok(Some(cur))
    } else {
        Ok(None)
    }
}

/// Greedy bounded repetition of a matcher.
#[derive(Clone, Debug)]
pub struct Repeat<Match> {
    matcher: Match,
    min: usize,
    max_inclusive: Option<usize>,
}

impl<Match> Repeat<Match> {
    /// The repeated matcher.
    pub closed spec fn inner(self) -> Match {
        self.matcher
    }

    /// The least number of repetitions.
    pub closed spec fn min_count(self) -> nat {
        self.min as nat
    }

    /// The greatest number of repetitions (`None` = unbounded).
    pub closed spec fn max_count(self) -> Option<nat> {
        opt_nat(self.max_inclusive)
    }

    fn new(matcher: Match, min: usize, max_inclusive: Option<usize>) -> (r: Self)
        ensures
            r.inner() == matcher,
            r.min_count() == min,
            r.max_count() == opt_nat(max_inclusive),
    {
        Self { matcher, min, max_inclusive }
    }
}

/// `repeat(matcher, bounds)`: match `matcher` between the least and the
/// greatest count of `bounds` times, greedily.
///
/// `bounds` is a range of repetition counts, such as `2..5` (2 to 4 times),
/// `1..`, `2..=4`, `..=3`, or `3..=3` for exactly three. The repetition
/// admits exactly the counts that `bounds` contains.
pub fn repeat<Match>(matcher: Match, bounds: RepeatBounds) -> (r: Repeat<Match>)
    ensures
        r.inner() == matcher,
        (r.min_count(), r.max_count()) == spec_decode_bounds(bounds),
        forall|c: int|
            0 <= c <= usize::MAX ==> (#[trigger] count_admitted(r.min_count(), r.max_count(), c)
                <==> bounds.contains(c)),
{
    let (min, max_inclusive) = decode_bounds(&bounds);
    Repeat::new(matcher, min, max_inclusive)
}

/// Every count that a decoded range admits lies in the range.
proof fn lemma_admitted_in_bounds(bounds: RepeatBounds, c: int)
    requires
        0 <= c,
        count_admitted(spec_decode_bounds(bounds).0, spec_decode_bounds(bounds).1, c),
    ensures
        bounds.contains(c),
{
}

/// A decoded range admits exactly the repetition counts that the range
/// contains.
pub proof fn lemma_decoded_bounds_admit_exactly(bounds: RepeatBounds, c: int)
    requires
        0 <= c <= usize::MAX,
    ensures
        count_admitted(spec_decode_bounds(bounds).0, spec_decode_bounds(bounds).1, c)
            <==> bounds.contains(c),
{
}

/// A successful `repeat(m, bounds)` took a number of repetitions that lies in
/// `bounds`, ends inside the input, and stopped only because it reached the
/// greatest count, or because `m` did not match or matched without progress
/// where it ended.
pub proof fn lemma_repeat_count_in_bounds<T, M: Matcher<T>>(
    r: Repeat<M>,
    bounds: RepeatBounds,
    input: Seq<T>,
    pos: int,
)
    requires
        (r.min_count(), r.max_count()) == spec_decode_bounds(bounds),
        0 <= pos <= input.len(),
    ensures
        r.spec_match(input, pos) == spec_repeat_end(
            r.inner(),
            input,
            pos,
            r.min_count(),
            r.max_count(),
        ),
        spec_repeat(r.inner(), input, pos, r.min_count(), r.max_count()) matches Ok(Some((e, c)))
            ==> {
            &&& bounds.contains(c as int)
            &&& pos <= e <= input.len()
            &&& (r.max_count() == Some(c) || r.inner().spec_match(input, e) == no_match()
                || r.inner().spec_match(input, e) == matched_at(e))
        },
{
    lemma_repeat_props(r.inner(), input, pos, r.min_count(), r.max_count());
    if let Ok(Some((e, c))) = spec_repeat(r.inner(), input, pos, r.min_count(), r.max_count()) {
        lemma_admitted_in_bounds(bounds, c as int);
    }
}

/// A range that contains no repetition count makes `repeat` fail everywhere,
/// without running the repeated matcher.
pub proof fn lemma_repeat_empty_bounds_fail<T, M: Matcher<T>>(
    r: Repeat<M>,
    bounds: RepeatBounds,
    input: Seq<T>,
    pos: int,
)
    requires
        (r.min_count(), r.max_count()) == spec_decode_bounds(bounds),
        forall|c: int| 0 <= c <= usize::MAX ==> !#[trigger] bounds.contains(c),
    ensures
        r.spec_match(input, pos) == no_match(),
{
    let (min, max) = spec_decode_bounds(bounds);
    // decoding never yields a minimum above usize::MAX
    assert(min <= usize::MAX);
    if count_admitted(min, max, min as int) {
        lemma_admitted_in_bounds(bounds, min as int);
        assert(bounds.contains(min as int));
    }
}

/// With equal least and greatest counts `n`, `repeat` is exactly `n`
/// consecutive matches, zero-width ones included.
pub proof fn lemma_repeat_exactly<T, M: Matcher<T>>(r: Repeat<M>, input: Seq<T>, pos: int)
    requires
        r.max_count() == Some(r.min_count()),
    ensures
        r.spec_match(input, pos) == spec_mandatory(r.inner(), input, pos, r.min_count()),
{
}

/// Every outcome of `repeat(m, bounds)` is explained by the matches of `m`
/// alone: a match is a chain of consecutive matches of `m`, as many as the
/// bounds allow, stopped at the greatest count or where `m` no longer
/// matches with progress; no match and errors are explained likewise (see
/// [`repetition_law`]).
pub proof fn lemma_repeat_law<T, M: Matcher<T>>(r: Repeat<M>, input: Seq<T>, pos: int)
    requires
        0 <= pos <= input.len(),
    ensures
        repetition_law(
            r.inner(),
            input,
            pos,
            r.min_count(),
            r.max_count(),
            r.spec_match(input, pos),
        ),
{
    lemma_repetition_law(r.inner(), input, pos, r.min_count(), r.max_count());
}

impl<T, Match: Matcher<T>> Matcher<T> for Repeat<Match> {
    open spec fn spec_match(&self, input: Seq<T>, pos: int) -> Result<Option<int>, MatcherRunError> {
        spec_repeat_end(self.inner(), input, pos, self.min_count(), self.max_count())
    }

    proof fn lemma_match_bounds(&self, input: Seq<T>, pos: int) {
        lemma_repeat_props(self.inner(), input, pos, self.min_count(), self.max_count());
    }

    fn match_at(&self, input: &[T], pos: usize) -> (r: Result<Option<usize>, MatcherRunError>) {
        let r = run_repeat_loop(&self.matcher, self.min, self.max_inclusive, input, pos);
        proof {
            lemma_repeat_props(
                self.matcher,
                input@,
                pos as int,
                self.min as nat,
                opt_nat(self.max_inclusive),
            );
        }
        r
    }
}

} // verus!
