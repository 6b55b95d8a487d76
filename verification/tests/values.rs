//! Tests for the narrowing operations on parsed values and for the
//! cursor's own small operations.

use mini_json::parser::JSON;
use mini_json::value::JSONValue;

#[test]
fn try_object_narrows_objects_only() {
    let v = JSON::parse("{\"k\":true}").unwrap();
    let pairs = v.try_object().unwrap();
    assert_eq!(pairs, vec![("k".to_string(), JSONValue::True)]);
    assert!(JSONValue::Null.try_object().is_err());
}

#[test]
fn try_array_narrows_arrays_only() {
    let v = JSON::parse("[null]").unwrap();
    assert_eq!(v.try_array().unwrap(), vec![JSONValue::Null]);
    assert!(JSONValue::True.try_array().is_err());
}

#[test]
fn try_string_narrows_strings_only() {
    let v = JSON::parse("\"s\"").unwrap();
    assert_eq!(v.try_string().unwrap(), "s");
    assert!(JSONValue::Null.try_string().is_err());
}

#[test]
fn try_number_narrows_numbers_only() {
    let v = JSON::parse("6.25").unwrap();
    assert_eq!(v.try_number().unwrap(), "6.25");
    assert!(JSONValue::Null.try_number().is_err());
}

#[test]
fn try_bool_narrows_booleans_only() {
    assert_eq!(JSON::parse("true").unwrap().try_bool().unwrap(), true);
    assert_eq!(JSON::parse("false").unwrap().try_bool().unwrap(), false);
    assert!(JSONValue::Null.try_bool().is_err());
    let err = JSONValue::Array(vec![]).try_bool().unwrap_err();
    assert_eq!(err, "Invalid type conversion");
}

#[test]
fn cursor_eat_consumes_exactly_one_character() {
    let mut c = JSON::new("ab");
    assert!(c.eat('a').is_ok());
    assert!(c.eat('b').is_ok());
    assert!(c.eat('c').is_err());
}

#[test]
fn cursor_eat_rejects_the_wrong_character() {
    let mut c = JSON::new("x");
    assert!(c.eat('y').is_err());
    assert!(c.eat('x').is_ok());
}

#[test]
fn cursor_increment_stops_at_the_end() {
    let mut c = JSON::new("abc");
    c.increment(100);
    assert!(c.eat('a').is_err());
    assert!(c.expect_not_end('x').is_err());
}

#[test]
fn cursor_increment_moves_by_the_given_amount() {
    let mut c = JSON::new("abc");
    c.increment(2);
    assert!(c.eat('c').is_ok());
}

#[test]
fn cursor_skip_whitespace_stops_at_non_whitespace() {
    let mut c = JSON::new(" \t\n\rz");
    c.skip_whitespace();
    assert!(c.eat('z').is_ok());
}

#[test]
fn cursor_expect_not_end_distinguishes_end_from_content() {
    let mut c = JSON::new("a");
    assert!(c.expect_not_end('a').is_ok());
    assert!(c.eat('a').is_ok());
    assert!(c.expect_not_end('a').is_err());
}

#[test]
fn cursor_expect_digit_checks_the_given_position() {
    let mut c = JSON::new("a1");
    assert!(c.expect_digit(0, 1).is_ok());
    assert!(c.expect_digit(0, 0).is_err());
    assert!(c.expect_digit(0, 2).is_err());
}

#[test]
fn parse_keyword_consumes_exactly_the_keyword() {
    let mut c = JSON::new("nullx");
    let r = c.parse_keyword("null", JSONValue::Null).unwrap();
    assert_eq!(r, Some(JSONValue::Null));
    assert!(c.eat('x').is_ok());
}

#[test]
fn parse_keyword_declines_without_consuming() {
    let mut c = JSON::new("nul");
    let r = c.parse_keyword("null", JSONValue::Null).unwrap();
    assert_eq!(r, None);
    assert!(c.eat('n').is_ok());
}
