use marser::matcher::{end_of_input, parse_str, parse_whole_input, start_of_input};
use marser::Matcher;

#[test]
fn end_of_input_succeeds_on_empty() {
    let p = end_of_input();
    assert_eq!(parse_str(&p, ""), Ok(true));
}

#[test]
fn end_of_input_fails_with_trailing() {
    let p = end_of_input();
    assert_eq!(parse_str(&p, "x"), Ok(false));
}

#[test]
fn end_of_input_after_consumed() {
    let p = ('a', end_of_input());
    assert_eq!(parse_str(&p, "a"), Ok(true));
    assert_eq!(parse_str(&p, "ab"), Ok(false));
}

#[test]
fn start_of_input_at_beginning() {
    let p = start_of_input();
    assert_eq!(parse_str(&p, ""), Ok(true));

    let with_char = (start_of_input(), 'x', end_of_input());
    assert_eq!(parse_str(&with_char, "x"), Ok(true));
}

#[test]
fn start_of_input_fails_after_advance() {
    let p = ('a', start_of_input());
    assert_eq!(parse_str(&p, "a"), Ok(false));
}

#[test]
fn start_of_input_with_subslice() {
    let src = "prefix:suffix";
    let p = (start_of_input(), "suffix");
    assert_eq!(parse_str(&p, &src[7..]), Ok(true));

    let p_after = ('s', start_of_input());
    assert_eq!(parse_str(&p_after, &src[7..]), Ok(false));
}

#[test]
fn end_of_input_is_zero_width_at_the_end() {
    let input: Vec<char> = "abc".chars().collect();
    let p = end_of_input();
    assert_eq!(p.match_at(&input, 3), Ok(Some(3)));
    assert_eq!(p.match_at(&input, 0), Ok(None));
    assert_eq!(p.match_at(&input, 2), Ok(None));
}

#[test]
fn start_of_input_is_zero_width_at_the_start() {
    let input: Vec<char> = "abc".chars().collect();
    let p = start_of_input();
    assert_eq!(Matcher::<char>::match_at(&p, &input, 0), Ok(Some(0)));
    assert_eq!(Matcher::<char>::match_at(&p, &input, 1), Ok(None));
    assert_eq!(Matcher::<char>::match_at(&p, &input, 3), Ok(None));
}

#[test]
fn boundaries_work_on_non_char_tokens() {
    let input: Vec<u8> = vec![1, 2];
    assert_eq!(parse_whole_input(&end_of_input(), &input), Ok(false));
    assert_eq!(parse_whole_input(&end_of_input(), &Vec::<u8>::new()), Ok(true));
    assert_eq!(parse_whole_input(&(start_of_input(), end_of_input()), &Vec::<u8>::new()), Ok(true));
}
