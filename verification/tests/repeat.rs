use marser::matcher::{
    decode_bounds, end_of_input, many, one_or_more, parse_str, repeat, run_repeat_loop,
    token_range, RepeatBound, RepeatBounds,
};
use marser::Matcher;

fn range(start: RepeatBound, end: RepeatBound) -> RepeatBounds {
    RepeatBounds { start, end }
}

use RepeatBound::{Excluded, Included, Unbounded};

#[test]
fn repeat_exactly_three() {
    // 3..=3
    let p = (repeat('a', range(Included(3), Included(3))), end_of_input());
    assert_eq!(parse_str(&p, "aaa"), Ok(true));
    assert_eq!(parse_str(&p, "aa"), Ok(false));
    assert_eq!(parse_str(&p, "aaaa"), Ok(false));
}

#[test]
fn repeat_half_open_range() {
    // 2..5
    let p = (repeat('a', range(Included(2), Excluded(5))), end_of_input());
    assert_eq!(parse_str(&p, "aa"), Ok(true));
    assert_eq!(parse_str(&p, "aaa"), Ok(true));
    assert_eq!(parse_str(&p, "aaaa"), Ok(true));
    assert_eq!(parse_str(&p, "a"), Ok(false));
    assert_eq!(parse_str(&p, "aaaaa"), Ok(false));
}

#[test]
fn repeat_unbounded_from_min() {
    // 2..
    let p = (repeat('a', range(Included(2), Unbounded)), end_of_input());
    assert_eq!(parse_str(&p, "aa"), Ok(true));
    assert_eq!(parse_str(&p, "aaaa"), Ok(true));
    assert_eq!(parse_str(&p, "a"), Ok(false));
}

#[test]
fn repeat_inclusive_range() {
    // 2..=4
    let p = (repeat('a', range(Included(2), Included(4))), end_of_input());
    assert_eq!(parse_str(&p, "aa"), Ok(true));
    assert_eq!(parse_str(&p, "aaaa"), Ok(true));
    assert_eq!(parse_str(&p, "a"), Ok(false));
    assert_eq!(parse_str(&p, "aaaaa"), Ok(false));
}

#[test]
fn repeat_empty_range_always_fails() {
    // 2..2
    let p = repeat('a', range(Included(2), Excluded(2)));
    assert_eq!(parse_str(&p, ""), Ok(false));
    assert_eq!(parse_str(&p, "aa"), Ok(false));
}

#[test]
fn repeat_stops_on_no_progress() {
    // 0..
    let p = (repeat((), range(Included(0), Unbounded)), end_of_input());
    assert_eq!(parse_str(&p, ""), Ok(true));
}

#[test]
fn many_still_accepts_unbounded_run() {
    let p = (many('a'), end_of_input());
    assert_eq!(parse_str(&p, ""), Ok(true));
    assert_eq!(parse_str(&p, "aaa"), Ok(true));
    assert_eq!(parse_str(&p, "b"), Ok(false));
}

#[test]
fn one_or_more_fails_on_empty() {
    let p = (one_or_more(token_range('0', '9')), end_of_input());
    assert_eq!(parse_str(&p, ""), Ok(false));
    assert_eq!(parse_str(&p, "123"), Ok(true));
}

#[test]
fn decode_bounds_of_common_ranges() {
    assert_eq!(decode_bounds(&range(Included(2), Excluded(5))), (2, Some(4)));
    assert_eq!(decode_bounds(&range(Included(1), Unbounded)), (1, None));
    assert_eq!(decode_bounds(&range(Included(2), Included(4))), (2, Some(4)));
    assert_eq!(decode_bounds(&range(Unbounded, Included(3))), (0, Some(3)));
    assert_eq!(decode_bounds(&range(Included(3), Included(3))), (3, Some(3)));
    assert_eq!(decode_bounds(&range(Unbounded, Unbounded)), (0, None));
    assert_eq!(decode_bounds(&range(Excluded(1), Excluded(4))), (2, Some(3)));
    assert_eq!(decode_bounds(&range(Unbounded, Excluded(3))), (0, Some(2)));
}

#[test]
fn decode_bounds_of_empty_ranges() {
    // 2..2 admits no count
    assert_eq!(decode_bounds(&range(Included(2), Excluded(2))), (2, Some(1)));
    // 0..0 and ..0 admit no count
    assert_eq!(decode_bounds(&range(Included(0), Excluded(0))), (1, Some(0)));
    assert_eq!(decode_bounds(&range(Unbounded, Excluded(0))), (1, Some(0)));
    // 5..=3 admits no count
    assert_eq!(decode_bounds(&range(Included(5), Included(3))), (5, Some(3)));
    // no usize count lies above usize::MAX
    assert_eq!(decode_bounds(&range(Excluded(usize::MAX), Unbounded)), (1, Some(0)));
}

#[test]
fn zero_repetitions_range_never_matches() {
    let p = repeat('a', range(Included(0), Excluded(0)));
    assert_eq!(parse_str(&p, ""), Ok(false));
    assert_eq!(parse_str(&p, "a"), Ok(false));
    let q = repeat('a', range(Unbounded, Excluded(0)));
    assert_eq!(parse_str(&q, ""), Ok(false));
}

#[test]
fn run_repeat_loop_positions() {
    let input: Vec<char> = "aaab".chars().collect();
    // greedy: stops before 'b'
    assert_eq!(run_repeat_loop(&'a', 0, None, &input, 0), Ok(Some(3)));
    // maximum caps the run
    assert_eq!(run_repeat_loop(&'a', 1, Some(2), &input, 0), Ok(Some(2)));
    // minimum not reached
    assert_eq!(run_repeat_loop(&'a', 4, None, &input, 0), Ok(None));
    // maximum below minimum
    assert_eq!(run_repeat_loop(&'a', 2, Some(1), &input, 0), Ok(None));
    // from a later cursor
    assert_eq!(run_repeat_loop(&'a', 0, None, &input, 2), Ok(Some(3)));
    assert_eq!(run_repeat_loop(&'a', 0, None, &input, 3), Ok(Some(3)));
    assert_eq!(run_repeat_loop(&'b', 1, Some(1), &input, 3), Ok(Some(4)));
}

#[test]
fn mandatory_matches_may_be_zero_width() {
    let input: Vec<char> = Vec::new();
    // three zero-width matches of () are all counted
    assert_eq!(run_repeat_loop(&(), 3, Some(3), &input, 0), Ok(Some(0)));
    let p = repeat((), range(Included(3), Included(3)));
    assert_eq!(parse_str(&p, ""), Ok(true));
}

#[test]
fn many_never_fails() {
    let input: Vec<char> = "xyz".chars().collect();
    let p = many('a');
    for pos in 0..=3 {
        assert_eq!(p.match_at(&input, pos), Ok(Some(pos)));
    }
}

#[test]
fn one_or_more_is_one_then_many() {
    let input: Vec<char> = "12a".chars().collect();
    let o = one_or_more(token_range('0', '9'));
    let m = many(token_range('0', '9'));
    assert_eq!(o.match_at(&input, 0), Ok(Some(2)));
    assert_eq!(m.match_at(&input, 1), Ok(Some(2)));
    assert_eq!(o.match_at(&input, 2), Ok(None));
    assert_eq!(m.match_at(&input, 2), Ok(Some(2)));
}

#[test]
fn many_and_one_or_more_agree_with_repeat() {
    for s in ["", "a", "aa", "aaab", "b"] {
        let input: Vec<char> = s.chars().collect();
        let many_a = many('a');
        let from_zero = repeat('a', range(Included(0), Unbounded));
        let plus_a = one_or_more('a');
        let from_one = repeat('a', range(Included(1), Unbounded));
        assert_eq!(many_a.match_at(&input, 0), from_zero.match_at(&input, 0));
        assert_eq!(plus_a.match_at(&input, 0), from_one.match_at(&input, 0));
    }
}

#[test]
fn repeat_of_a_multi_token_matcher() {
    let p = (repeat("ab", range(Included(1), Included(2))), end_of_input());
    assert_eq!(parse_str(&p, "ab"), Ok(true));
    assert_eq!(parse_str(&p, "abab"), Ok(true));
    assert_eq!(parse_str(&p, "ababab"), Ok(false));
    assert_eq!(parse_str(&p, "aba"), Ok(false));
    assert_eq!(parse_str(&p, ""), Ok(false));
}

#[test]
fn repeat_stops_where_the_matcher_fails() {
    let input: Vec<char> = "1234x".chars().collect();
    let p = repeat(token_range('0', '9'), range(Included(2), Included(3)));
    // three digits taken, the greatest count
    assert_eq!(p.match_at(&input, 0), Ok(Some(3)));
    // two digits left before 'x': stops because the digit matcher fails
    assert_eq!(p.match_at(&input, 2), Ok(Some(4)));
    // only one digit left
    assert_eq!(p.match_at(&input, 3), Ok(None));
}

#[test]
fn repeat_capture_bounded() {
    // 2..=3 digits, on the whole input
    let digit = token_range('0', '9');
    let p = repeat(digit, range(Included(2), Included(3)));
    assert_eq!(parse_str(&p, "12"), Ok(true));
    assert_eq!(parse_str(&p, "123"), Ok(true));
    assert_eq!(parse_str(&p, "1"), Ok(false));
    assert_eq!(parse_str(&p, "1234"), Ok(false));
}
