use examplar_parser::Character;
use examplar_parser::Limit;
use examplar_parser::ParseError;
use examplar_parser::Parser;
use examplar_parser::any;
use examplar_parser::at_least;
use examplar_parser::between;
use examplar_parser::character;
use examplar_parser::many;
use examplar_parser::one_of;
use examplar_parser::map_parser;
use examplar_parser::parse;

#[test]
fn parse_a_character() {
    let input = "ABCD";
    let parser = character('A');

    let actual = parser.parse(input);

    let expected = Ok(('A', "BCD"));
    assert_eq!(actual, expected);
}

#[test]
fn parse_any_digit() {
    let input = "0123";
    let parser = any(|c: char| c.is_ascii_digit());

    let actual = parser.parse(input);

    let expected = Ok(('0', "123"));
    assert_eq!(actual, expected);
}

#[test]
fn parse_any_digit_as_number() {
    let input = "1230";
    let parser = map_parser(any(|c: char| c.is_ascii_digit()), |c: char| {
        c.to_digit(10).unwrap_or(0)
    });

    let actual = parser.parse(input);

    let expected = Ok((1, "230"));
    assert_eq!(actual, expected);
}

#[test]
fn parse_between_2_and_4_digits() {
    let input = "12345";
    let parser = between(2, 4, any(|c: char| c.is_ascii_digit()));

    let actual = parser.parse(input);

    let expected = Ok((vec!['1', '2', '3', '4'], "5"));
    assert_eq!(actual, expected);
}

#[test]
fn parse_one_of_a_or_b() {
    let input = "a1";
    let parser = one_of(vec![character('a'), character('b')]);

    let actual = parser.parse(input);

    let expected = Ok(('a', "1"));
    assert_eq!(actual, expected);
}

#[test]
fn character_mismatch_reports_the_expected_code_point() {
    let parser = character('X');

    let actual = parser.parse("ABCD");

    assert_eq!(actual, Err(ParseError::ExpectingCharacter('X')));
}

#[test]
fn character_on_empty_input_reports_the_expected_code_point() {
    let parser = character('A');

    let actual = parser.parse("");

    assert_eq!(actual, Err(ParseError::ExpectingCharacter('A')));
}

#[test]
fn character_matches_a_code_point_outside_ascii() {
    let parser = character('\u{e9}');

    let actual = parser.parse("\u{e9}x");

    assert_eq!(actual, Ok(('\u{e9}', "x")));
}

#[test]
fn any_mismatch_reports_the_predicate() {
    let parser = any(|c: char| c.is_ascii_digit());

    let actual = parser.parse("abc");

    assert_eq!(actual, Err(ParseError::ExpectingPredicate));
}

#[test]
fn any_on_empty_input_reports_end_of_input() {
    let parser = any(|c: char| c.is_ascii_digit());

    let actual = parser.parse("");

    assert_eq!(actual, Err(ParseError::EndOfInput));
}

#[test]
fn map_propagates_the_inner_error_unchanged() {
    let parser = map_parser(any(|c: char| c.is_ascii_digit()), |c: char| {
        c.to_digit(10).unwrap_or(0)
    });

    let actual = parser.parse("x123");

    assert_eq!(actual, Err(ParseError::ExpectingPredicate));
}

#[test]
fn between_stops_at_the_first_failure_past_the_mandatory_phase() {
    let parser = between(2, 4, any(|c: char| c.is_ascii_digit()));

    let actual = parser.parse("12a45");

    assert_eq!(actual, Ok((vec!['1', '2'], "a45")));
}

#[test]
fn between_fails_during_the_mandatory_phase_with_the_inner_error() {
    let parser = between(2, 4, any(|c: char| c.is_ascii_digit()));

    let actual = parser.parse("1a345");

    assert_eq!(actual, Err(ParseError::ExpectingPredicate));
}

#[test]
fn between_zero_and_zero_consumes_nothing() {
    let parser = between(0, 0, any(|c: char| c.is_ascii_digit()));

    let actual = parser.parse("123");

    assert_eq!(actual, Ok((vec![], "123")));
}

#[test]
fn at_least_keeps_going_until_the_first_failure() {
    let parser = at_least(1, any(|c: char| c.is_ascii_digit()));

    let actual = parser.parse("123a");

    assert_eq!(actual, Ok((vec!['1', '2', '3'], "a")));
}

#[test]
fn at_least_fails_when_too_few_repetitions_succeed() {
    let parser = at_least(2, any(|c: char| c.is_ascii_digit()));

    let actual = parser.parse("1a");

    assert_eq!(actual, Err(ParseError::ExpectingPredicate));
}

#[test]
fn many_with_no_leading_match_returns_an_empty_sequence() {
    let parser = many(any(|c: char| c.is_ascii_digit()));

    let actual = parser.parse("abc");

    assert_eq!(actual, Ok((vec![], "abc")));
}

#[test]
fn many_consumes_every_leading_match() {
    let parser = many(any(|c: char| c.is_ascii_digit()));

    let actual = parser.parse("123");

    assert_eq!(actual, Ok((vec!['1', '2', '3'], "")));
}

#[test]
fn one_of_falls_back_to_the_second_option() {
    let parser = one_of(vec![character('a'), character('b')]);

    let actual = parser.parse("b1");

    assert_eq!(actual, Ok(('b', "1")));
}

#[test]
fn one_of_with_no_matching_option_reports_the_synthetic_error() {
    let parser = one_of(vec![character('a'), character('b')]);

    let actual = parser.parse("c1");

    assert_eq!(actual, Err(ParseError::ExpectingOneOfToParse));
}

#[test]
fn one_of_without_options_always_fails() {
    let parser = one_of::<Character>(vec![]);

    let actual = parser.parse("a1");

    assert_eq!(actual, Err(ParseError::ExpectingOneOfToParse));
}

#[test]
fn repetition_composes_with_alternation() {
    let parser = many(one_of(vec![character('a'), character('b')]));

    let actual = parser.parse("abba!");

    assert_eq!(actual, Ok((vec!['a', 'b', 'b', 'a'], "!")));
}

#[test]
fn a_finite_limit_is_bigger_exactly_below_its_threshold() {
    assert!(Limit::At(3).is_bigger_then(2));
    assert!(!Limit::At(3).is_bigger_then(3));
    assert!(!Limit::At(0).is_bigger_then(0));
    assert!(Limit::Infinity.is_bigger_then(255));
}

#[test]
fn top_level_parse_accepts_every_input() {
    assert_eq!(parse("anything"), Ok(()));
    assert_eq!(parse(""), Ok(()));
}
