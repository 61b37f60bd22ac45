use marser::matcher::{
    end_of_input, many, negative_lookahead, one_or_more, parse_str, raise_error, repeat,
    run_repeat_loop, MatcherRunError, RepeatBound, RepeatBounds,
};
use marser::Matcher;

fn err(pos: usize) -> Result<Option<usize>, MatcherRunError> {
    Err(MatcherRunError { pos })
}

#[test]
fn raise_error_raises_at_the_cursor() {
    let input: Vec<char> = "ab".chars().collect();
    assert_eq!(Matcher::<char>::match_at(&raise_error(), &input, 1), err(1));
    assert_eq!(parse_str(&raise_error(), ""), Err(MatcherRunError { pos: 0 }));
}

#[test]
fn repetitions_hand_on_errors_of_the_mandatory_part() {
    let input: Vec<char> = "aa".chars().collect();
    assert_eq!(run_repeat_loop(&('a', raise_error()), 1, None, &input, 0), err(1));
    assert_eq!(Matcher::<char>::match_at(&one_or_more(raise_error()), &input, 2), err(2));
}

#[test]
fn repetitions_hand_on_errors_of_the_greedy_part() {
    // one 'a', raising an error just past a '!' that follows it
    let a_unless_bang = ('a', negative_lookahead(('!', raise_error())));
    let input: Vec<char> = "aa!a".chars().collect();
    assert_eq!(a_unless_bang.match_at(&input, 0), Ok(Some(1)));
    assert_eq!(a_unless_bang.match_at(&input, 1), err(3));
    assert_eq!(many(a_unless_bang.clone()).match_at(&input, 0), err(3));
    let r = repeat(
        a_unless_bang.clone(),
        RepeatBounds { start: RepeatBound::Included(1), end: RepeatBound::Unbounded },
    );
    assert_eq!(r.match_at(&input, 0), err(3));
    assert_eq!(
        parse_str(&(many(a_unless_bang.clone()), end_of_input()), "aa!a"),
        Err(MatcherRunError { pos: 3 })
    );
}

#[test]
fn a_reached_maximum_stops_before_an_error() {
    let a_unless_bang = ('a', negative_lookahead(('!', raise_error())));
    let input: Vec<char> = "aa!".chars().collect();
    // the count is capped at one, so the second 'a' is never tried
    assert_eq!(run_repeat_loop(&a_unless_bang, 0, Some(1), &input, 0), Ok(Some(1)));
    // an empty range never runs the matcher
    assert_eq!(run_repeat_loop(&raise_error(), 1, Some(0), &input, 0), Ok(None));
    // a count capped at zero never runs it either
    assert_eq!(run_repeat_loop(&raise_error(), 0, Some(0), &input, 0), Ok(Some(0)));
}

#[test]
fn sequences_and_lookahead_hand_on_errors() {
    assert_eq!(parse_str(&('a', raise_error()), "a"), Err(MatcherRunError { pos: 1 }));
    assert_eq!(parse_str(&negative_lookahead(raise_error()), ""), Err(MatcherRunError { pos: 0 }));
    // a first part that does not match means the second is never run
    assert_eq!(parse_str(&('b', raise_error()), "a"), Ok(false));
}
