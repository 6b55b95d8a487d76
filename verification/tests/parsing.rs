//! Behavioural tests for the parser: the documented scenarios, the
//! grammar's edge cases, and one input for every error kind.

use mini_json::errors::ParseError;
use mini_json::parser::JSON;
use mini_json::value::JSONValue;

fn num(t: &str) -> JSONValue {
    JSONValue::Number(t.to_string())
}

fn text(t: &str) -> JSONValue {
    JSONValue::String(t.to_string())
}

#[test]
fn parses_null() {
    assert_eq!(JSON::parse("null").unwrap(), JSONValue::Null);
}

#[test]
fn parses_true_and_false() {
    assert_eq!(JSON::parse("true").unwrap(), JSONValue::True);
    assert_eq!(JSON::parse("false").unwrap(), JSONValue::False);
}

#[test]
fn parses_array_of_numbers() {
    let v = JSON::parse(" [1, 2, 3] ").unwrap();
    assert_eq!(v, JSONValue::Array(vec![num("1"), num("2"), num("3")]));
}

#[test]
fn whitespace_before_closing_brace_is_fine() {
    let v = JSON::parse("{\"a\":1 }").unwrap();
    assert_eq!(v, JSONValue::Object(vec![("a".to_string(), num("1"))]));
}

#[test]
fn whitespace_before_closing_bracket_after_comma_is_expected_token() {
    assert!(matches!(JSON::parse("[1,2 ]"), Err(ParseError::ExpectedToken(_))));
}

#[test]
fn parses_object_with_mixed_members() {
    let v = JSON::parse("{\"a\":1,\"b\":[true,false,null]}").unwrap();
    let expected = JSONValue::Object(vec![
        ("a".to_string(), num("1")),
        (
            "b".to_string(),
            JSONValue::Array(vec![JSONValue::True, JSONValue::False, JSONValue::Null]),
        ),
    ]);
    assert_eq!(v, expected);
}

#[test]
fn array_order_is_preserved() {
    let v = JSON::parse("[3, 1, 2]").unwrap();
    assert_eq!(v, JSONValue::Array(vec![num("3"), num("1"), num("2")]));
}

#[test]
fn nested_structures_mirror_the_literal() {
    let v = JSON::parse("{\"xs\":[[1],[2, 3],{\"y\":\"z\"}]}").unwrap();
    let expected = JSONValue::Object(vec![(
        "xs".to_string(),
        JSONValue::Array(vec![
            JSONValue::Array(vec![num("1")]),
            JSONValue::Array(vec![num("2"), num("3")]),
            JSONValue::Object(vec![("y".to_string(), text("z"))]),
        ]),
    )]);
    assert_eq!(v, expected);
}

#[test]
fn duplicate_key_keeps_last_value() {
    let v = JSON::parse("{\"a\":1,\"a\":2}").unwrap();
    assert_eq!(v, JSONValue::Object(vec![("a".to_string(), num("2"))]));
}

#[test]
fn duplicate_key_keeps_position_of_first_occurrence() {
    let v = JSON::parse("{\"a\":1,\"b\":2,\"a\":3}").unwrap();
    let expected = JSONValue::Object(vec![
        ("a".to_string(), num("3")),
        ("b".to_string(), num("2")),
    ]);
    assert_eq!(v, expected);
}

#[test]
fn number_keeps_exact_consumed_literal() {
    assert_eq!(JSON::parse("-12.5e3").unwrap(), num("-12.5e3"));
    assert_eq!(JSON::parse("0.125E-2").unwrap(), num("0.125E-2"));
    assert_eq!(JSON::parse("42").unwrap(), num("42"));
}

#[test]
fn numeric_round_trip_matches_double_conversion() {
    for lit in ["1", "2", "3", "-12.5e3", "0.125E-2", "42", "1e+4", "-0.5"] {
        let parsed = JSON::parse(lit).unwrap().try_number().unwrap();
        assert_eq!(parsed, lit);
        let through: f64 = parsed.parse().unwrap();
        let direct: f64 = lit.parse().unwrap();
        assert_eq!(through, direct);
    }
    let v: f64 = JSON::parse("-12.5e3").unwrap().try_number().unwrap().parse().unwrap();
    assert_eq!(v, -12500.0);
}

#[test]
fn number_consumes_maximal_literal_and_ignores_trailing() {
    assert_eq!(JSON::parse("1.5e2xyz").unwrap(), num("1.5e2"));
}

#[test]
fn simple_escapes_decode_to_single_characters() {
    let v = JSON::parse("\"a\\nb\\tc\\\"d\\\\e\\/f\\rg\\bh\\fi\"").unwrap();
    assert_eq!(v, text("a\nb\tc\"d\\e/f\rg\u{8}h\u{c}i"));
}

#[test]
fn unicode_escapes_decode_independently() {
    assert_eq!(JSON::parse("\"\\u0041\\u0042\"").unwrap(), text("AB"));
}

#[test]
fn unpaired_surrogate_escape_becomes_replacement_character() {
    assert_eq!(JSON::parse("\"\\uD83D\\uDE00\"").unwrap(), text("\u{FFFD}\u{FFFD}"));
}

#[test]
fn strings_with_plain_text_pass_through() {
    assert_eq!(JSON::parse("\"hello world\"").unwrap(), text("hello world"));
    assert_eq!(JSON::parse("\"\"").unwrap(), text(""));
}

#[test]
fn open_brace_alone_is_unexpected_end() {
    assert!(matches!(JSON::parse("{"), Err(ParseError::UnexpectedEndOfInput(_))));
}

#[test]
fn truncated_keyword_is_not_valid_json() {
    assert!(matches!(JSON::parse("tru"), Err(ParseError::UnexpectedEndOfInput(_))));
}

#[test]
fn empty_and_blank_input_fail() {
    assert!(matches!(JSON::parse(""), Err(ParseError::UnexpectedEndOfInput(_))));
    assert!(matches!(JSON::parse("   "), Err(ParseError::UnexpectedEndOfInput(_))));
}

#[test]
fn trailing_comma_in_object_is_expected_object_key() {
    assert!(matches!(JSON::parse("{\"a\":1,}"), Err(ParseError::ExpectedObjectKey(_))));
}

#[test]
fn unterminated_string_is_unexpected_end() {
    assert!(matches!(JSON::parse("\"abc"), Err(ParseError::UnexpectedEndOfInput(_))));
}

#[test]
fn unknown_escape_is_expected_escape_char() {
    assert!(matches!(JSON::parse("\"a\\qb\""), Err(ParseError::ExpectedEscapeChar(_))));
}

#[test]
fn short_unicode_escape_is_expected_unicode_escape() {
    assert!(matches!(JSON::parse("\"a\\u12\""), Err(ParseError::ExpectedUnicodeEscape(_))));
}

#[test]
fn missing_digits_fail_with_expected_digit() {
    assert!(matches!(JSON::parse("-"), Err(ParseError::ExpectedDigit(_))));
    assert!(matches!(JSON::parse("-x"), Err(ParseError::ExpectedDigit(_))));
    assert!(matches!(JSON::parse("1."), Err(ParseError::ExpectedDigit(_))));
    assert!(matches!(JSON::parse("1.x"), Err(ParseError::ExpectedDigit(_))));
    assert!(matches!(JSON::parse("1e+"), Err(ParseError::ExpectedDigit(_))));
}

#[test]
fn exponent_marker_as_last_character_is_expected_digit() {
    assert!(matches!(JSON::parse("1e"), Err(ParseError::ExpectedDigit(_))));
    assert!(matches!(JSON::parse("2.5E"), Err(ParseError::ExpectedDigit(_))));
}

#[test]
fn missing_colon_is_expected_token() {
    assert!(matches!(JSON::parse("{\"a\" 1}"), Err(ParseError::ExpectedToken(_))));
}

#[test]
fn missing_comma_between_members_is_expected_token() {
    assert!(matches!(JSON::parse("{\"a\":1 \"b\":2}"), Err(ParseError::ExpectedToken(_))));
}

#[test]
fn whitespace_before_closing_bracket_is_expected_token() {
    assert!(matches!(JSON::parse("[1 ]"), Err(ParseError::ExpectedToken(_))));
}

#[test]
fn whitespace_after_opening_bracket_is_fine() {
    assert_eq!(JSON::parse("[ 1,2]").unwrap(), JSONValue::Array(vec![num("1"), num("2")]));
    assert_eq!(JSON::parse("[ ]").unwrap(), JSONValue::Array(vec![]));
}

#[test]
fn empty_object_and_array() {
    assert_eq!(JSON::parse("{}").unwrap(), JSONValue::Object(vec![]));
    assert_eq!(JSON::parse("{ }").unwrap(), JSONValue::Object(vec![]));
    assert_eq!(JSON::parse("[]").unwrap(), JSONValue::Array(vec![]));
}

#[test]
fn unclosed_array_is_unexpected_end() {
    assert!(matches!(JSON::parse("[1"), Err(ParseError::UnexpectedEndOfInput(_))));
}

#[test]
fn keyword_has_no_word_boundary_check() {
    assert_eq!(JSON::parse("truex").unwrap(), JSONValue::True);
}

#[test]
fn trailing_input_after_value_is_ignored() {
    assert_eq!(JSON::parse("null garbage").unwrap(), JSONValue::Null);
}

#[test]
fn only_the_four_whitespace_characters_are_skipped() {
    assert_eq!(JSON::parse(" \t\r\nnull").unwrap(), JSONValue::Null);
    assert!(matches!(JSON::parse("\u{0c}null"), Err(ParseError::UnexpectedEndOfInput(_))));
}

#[test]
fn object_keys_may_contain_escapes() {
    let v = JSON::parse("{\"a\\nb\": 1}").unwrap();
    assert_eq!(v, JSONValue::Object(vec![("a\nb".to_string(), num("1"))]));
}
