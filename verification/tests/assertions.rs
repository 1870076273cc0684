use capter::assertion::assertions::{
    match_verdict, to_be_above, to_be_array, to_be_at_least, to_be_at_most, to_be_below,
    to_be_boolean, to_be_empty, to_be_false, to_be_null, to_be_number, to_be_object, to_be_string,
    to_be_true, to_be_undefined, to_contain, to_equal, to_exist, to_have_length, to_match,
    try_to_match,
};
use capter::assertion::utils::{did_pass, to, to_number, to_string, verb};
use capter::assertion::{TestName, ValueAssertions};
use capter::error::ConfigError;
use capter::value::Value;

fn convert(value: &serde_json::Value) -> Value {
    match value {
        serde_json::Value::Null => Value::Null,
        serde_json::Value::Bool(b) => Value::Bool(*b),
        serde_json::Value::Number(n) => Value::Number(n.to_string()),
        serde_json::Value::String(s) => Value::String(s.clone()),
        serde_json::Value::Array(items) => Value::Array(items.iter().map(convert).collect()),
        serde_json::Value::Object(members) => {
            let mut object = Value::object();
            for (key, member) in members {
                object = object.put(key.clone(), convert(member));
            }
            object
        }
    }
}

fn json(text: &str) -> Value {
    convert(&serde_json::from_str(text).unwrap())
}

fn float(value: f64) -> Value {
    convert(&serde_json::Value::from(value))
}

fn message(text: &str) -> Option<String> {
    Some(text.to_string())
}

#[test]
fn to_be_above_test_pass() {
    assert_eq!(to_be_above(&json("5"), &json("4"), false), None);
    assert_eq!(to_be_above(&json("1"), &json("0"), false), None);
    assert_eq!(to_be_above(&json("-100"), &json("-300"), false), None);
    assert_eq!(to_be_above(&float(0.6), &float(0.5), false), None);
}

#[test]
fn to_be_above_test_fail() {
    assert_eq!(
        to_be_above(&json("3"), &json("3"), false),
        Some("expected 3 to be above 3".to_string())
    );
    assert_eq!(
        to_be_above(&json("4"), &json("5"), false),
        Some("expected 4 to be above 5".to_string())
    );
    assert_eq!(
        to_be_above(&json("-2"), &json("-3"), true),
        Some("expected -2 to not be above -3".to_string())
    );
}

#[test]
fn to_be_above_test_invalid_type() {
    assert_eq!(
        to_be_above(&json("\"foo\""), &json("5"), false),
        Some("expected \"foo\" and 5 to be numbers".to_string())
    );
}

#[test]
fn to_be_array_test_pass() {
    assert_eq!(to_be_array(&json(r#"["foo", "bar"]"#), &Value::Null, false), None);
    assert_eq!(to_be_array(&json("[]"), &Value::Null, false), None);
}

#[test]
fn to_be_array_test_fail() {
    assert_eq!(
        to_be_array(&json("3"), &Value::Null, false),
        Some("expected 3 to be an array".to_string())
    );
    assert_eq!(
        to_be_array(&json(r#"["foo", "bar"]"#), &Value::Null, true),
        Some("expected [\"foo\",\"bar\"] to not be an array".to_string())
    );
    assert_eq!(
        to_be_array(&Value::Null, &Value::Null, false),
        Some("expected null to be an array".to_string())
    );
}

#[test]
fn to_be_at_least_test_pass() {
    assert_eq!(to_be_at_least(&json("5"), &json("5"), false), None);
    assert_eq!(to_be_at_least(&json("5"), &json("4"), false), None);
    assert_eq!(to_be_at_least(&json("1"), &json("0"), false), None);
    assert_eq!(to_be_at_least(&json("-100"), &json("-300"), false), None);
    assert_eq!(to_be_at_least(&float(0.6), &float(0.5), false), None);
}

#[test]
fn to_be_at_least_test_fail() {
    assert_eq!(
        to_be_at_least(&json("4"), &json("5"), false),
        Some("expected 4 to be at least 5".to_string())
    );
    assert_eq!(
        to_be_at_least(&json("-2"), &json("-3"), true),
        Some("expected -2 to not be at least -3".to_string())
    );
}

#[test]
fn to_be_at_least_test_invalid_type() {
    assert_eq!(
        to_be_at_least(&json("\"foo\""), &json("5"), false),
        Some("expected \"foo\" and 5 to be numbers".to_string())
    );
}

#[test]
fn to_be_at_most_test_pass() {
    assert_eq!(to_be_at_most(&json("3"), &json("3"), false), None);
    assert_eq!(to_be_at_most(&json("3"), &json("4"), false), None);
    assert_eq!(to_be_at_most(&json("0"), &json("1"), false), None);
    assert_eq!(to_be_at_most(&json("-300"), &json("-100"), false), None);
    assert_eq!(to_be_at_most(&float(0.3), &float(0.6), false), None);
}

#[test]
fn to_be_at_most_test_fail() {
    assert_eq!(
        to_be_at_most(&json("4"), &json("3"), false),
        Some("expected 4 to be at most 3".to_string())
    );
    assert_eq!(
        to_be_at_most(&json("-3"), &json("-2"), true),
        Some("expected -3 to not be at most -2".to_string())
    );
}

#[test]
fn to_be_at_most_test_invalid_type() {
    assert_eq!(
        to_be_at_most(&json("\"foo\""), &json("3"), false),
        Some("expected \"foo\" and 3 to be numbers".to_string())
    );
}

#[test]
fn to_be_below_test_pass() {
    assert_eq!(to_be_below(&json("3"), &json("4"), false), None);
    assert_eq!(to_be_below(&json("0"), &json("1"), false), None);
    assert_eq!(to_be_below(&json("-300"), &json("-100"), false), None);
    assert_eq!(to_be_below(&float(0.3), &float(0.6), false), None);
}

#[test]
fn to_be_below_test_fail() {
    assert_eq!(
        to_be_below(&json("3"), &json("3"), false),
        Some("expected 3 to be below 3".to_string())
    );
    assert_eq!(
        to_be_below(&json("4"), &json("3"), false),
        Some("expected 4 to be below 3".to_string())
    );
    assert_eq!(
        to_be_below(&json("-3"), &json("-2"), true),
        Some("expected -3 to not be below -2".to_string())
    );
}

#[test]
fn to_be_below_test_invalid_type() {
    assert_eq!(
        to_be_below(&json("\"foo\""), &json("3"), false),
        Some("expected \"foo\" and 3 to be numbers".to_string())
    );
}

#[test]
fn to_be_boolean_test_pass() {
    assert_eq!(to_be_boolean(&json("true"), &Value::Null, false), None);
    assert_eq!(to_be_boolean(&json("false"), &Value::Null, false), None);
    assert_eq!(to_be_boolean(&json("\"foo\""), &Value::Null, true), None);
}

#[test]
fn to_be_boolean_test_fail() {
    assert_eq!(
        to_be_boolean(&json("\"foo\""), &Value::Null, false),
        Some("expected \"foo\" to be a boolean".to_string())
    );
    assert_eq!(
        to_be_boolean(&json("\"true\""), &Value::Null, false),
        Some("expected \"true\" to be a boolean".to_string())
    );
    assert_eq!(
        to_be_boolean(&json("0"), &Value::Null, false),
        Some("expected 0 to be a boolean".to_string())
    );
}

#[test]
fn to_be_empty_test_pass() {
    assert_eq!(to_be_empty(&json("[]"), &Value::Null, false), None);
    assert_eq!(to_be_empty(&json("\"\""), &Value::Null, false), None);
    assert_eq!(to_be_empty(&json("{}"), &Value::Null, false), None);
}

#[test]
fn to_be_empty_test_fail() {
    assert_eq!(
        to_be_empty(&Value::Null, &Value::Null, false),
        Some("expected a string, array or object".to_string())
    );

    assert_eq!(
        to_be_empty(&json("[3]"), &Value::Null, false),
        Some("expected [3] to be empty".to_string())
    );
    assert_eq!(
        to_be_empty(&json("[]"), &Value::Null, true),
        Some("expected [] to not be empty".to_string())
    );
    assert_eq!(
        to_be_empty(&json("\"foo\""), &Value::Null, false),
        Some("expected \"foo\" to be empty".to_string())
    );
    assert_eq!(
        to_be_empty(&json(r#"{"foo": "bar"}"#), &Value::Null, false),
        Some("expected {\"foo\":\"bar\"} to be empty".to_string())
    );
}

#[test]
fn to_be_false_test_pass() {
    assert_eq!(to_be_false(&json("false"), &Value::Null, false), None);
    assert_eq!(to_be_false(&json("true"), &Value::Null, true), None);
}

#[test]
fn to_be_false_test_fail() {
    assert_eq!(
        to_be_false(&Value::Null, &Value::Null, false),
        Some("expected null to be false".to_string())
    );
    assert_eq!(
        to_be_false(&json("0"), &Value::Null, false),
        Some("expected 0 to be false".to_string())
    );
    assert_eq!(
        to_be_false(&json("false"), &Value::Null, true),
        Some("expected false to not be false".to_string())
    );
}

#[test]
fn to_be_null_test_pass() {
    assert_eq!(to_be_null(&Value::Null, &Value::Null, false), None);
    assert_eq!(to_be_null(&json("0"), &Value::Null, true), None);
}

#[test]
fn to_be_null_test_fail() {
    assert_eq!(
        to_be_null(&json("\"null\""), &Value::Null, false),
        Some("expected \"null\" to be null".to_string())
    );
    assert_eq!(
        to_be_null(&json("0"), &Value::Null, false),
        Some("expected 0 to be null".to_string())
    );
    assert_eq!(
        to_be_null(&Value::Null, &Value::Null, true),
        Some("expected null to not be null".to_string())
    );
}

#[test]
fn to_be_number_test_pass() {
    assert_eq!(to_be_number(&json("-5"), &Value::Null, false), None);
    assert_eq!(to_be_number(&json("0"), &Value::Null, false), None);
    assert_eq!(to_be_number(&float(0.5), &Value::Null, false), None);
    assert_eq!(to_be_number(&json("\"foo\""), &Value::Null, true), None);
}

#[test]
fn to_be_number_test_fail() {
    assert_eq!(
        to_be_number(&json("\"1\""), &Value::Null, false),
        Some("expected \"1\" to be a number".to_string())
    );
    assert_eq!(
        to_be_number(&json("true"), &Value::Null, false),
        Some("expected true to be a number".to_string())
    );
    assert_eq!(
        to_be_number(&Value::Null, &Value::Null, false),
        Some("expected null to be a number".to_string())
    );
}

#[test]
fn to_be_object_test_pass() {
    assert_eq!(to_be_object(&json("{}"), &Value::Null, false), None);
    assert_eq!(to_be_object(&json(r#"{"foo": "bar"}"#), &Value::Null, false), None);
    assert_eq!(to_be_object(&json("\"foo bar\""), &Value::Null, true), None);
}

#[test]
fn to_be_object_test_fail() {
    assert_eq!(
        to_be_object(&json("\"{}\""), &Value::Null, false),
        Some("expected \"{}\" to be an object".to_string())
    );
    assert_eq!(
        to_be_object(&json("[]"), &Value::Null, false),
        Some("expected [] to be an object".to_string())
    );
    assert_eq!(
        to_be_object(&Value::Null, &Value::Null, false),
        Some("expected null to be an object".to_string())
    );
    assert_eq!(
        to_be_object(&json(r#"{"foo": "bar"}"#), &Value::Null, true),
        Some("expected {\"foo\":\"bar\"} to not be an object".to_string())
    );
}

#[test]
fn to_be_string_test_pass() {
    assert_eq!(to_be_string(&json("\"\""), &Value::Null, false), None);
    assert_eq!(to_be_string(&json("\"foo bar\""), &Value::Null, false), None);
    assert_eq!(to_be_string(&json("1"), &Value::Null, true), None);
}

#[test]
fn to_be_string_test_fail() {
    assert_eq!(
        to_be_string(&json("true"), &Value::Null, false),
        Some("expected true to be a string".to_string())
    );
    assert_eq!(
        to_be_string(&Value::Null, &Value::Null, false),
        Some("expected null to be a string".to_string())
    );
    assert_eq!(
        to_be_string(&json("\"foo\""), &Value::Null, true),
        Some("expected \"foo\" to not be a string".to_string())
    );
}

#[test]
fn to_be_true_test_pass() {
    assert_eq!(to_be_true(&json("true"), &Value::Null, false), None);
    assert_eq!(to_be_true(&json("false"), &Value::Null, true), None);
}

#[test]
fn to_be_true_test_fail() {
    assert_eq!(
        to_be_true(&Value::Null, &Value::Null, false),
        Some("expected null to be true".to_string())
    );
    assert_eq!(
        to_be_true(&json("1"), &Value::Null, false),
        Some("expected 1 to be true".to_string())
    );
    assert_eq!(
        to_be_true(&json("true"), &Value::Null, true),
        Some("expected true to not be true".to_string())
    );
}

#[test]
fn to_be_undefined_test_pass() {
    assert_eq!(to_be_undefined(&Value::Null, &Value::Null, false), None);
}

#[test]
fn to_be_undefined_test_fail() {
    assert_eq!(
        to_be_undefined(&json("0"), &Value::Null, false),
        Some("expected 0 to be undefined".to_string())
    );
    assert_eq!(
        to_be_undefined(&json("false"), &Value::Null, false),
        Some("expected false to be undefined".to_string())
    );
    assert_eq!(
        to_be_undefined(&json("{}"), &Value::Null, false),
        Some("expected {} to be undefined".to_string())
    );
}

#[test]
fn to_contain_test_pass() {
    assert_eq!(to_contain(&json("\"foo bar\""), &json("\"bar\""), false), None);
    assert_eq!(to_contain(&json("true"), &json("true"), false), None);
    assert_eq!(to_contain(&json(r#"["foo", "bar"]"#), &json("\"foo\""), false), None);
}

#[test]
fn to_contain_test_fail() {
    assert_eq!(
        to_contain(&json("true"), &json("\"false\""), false),
        Some("expected true to contain \"false\"".to_string())
    );
    assert_eq!(
        to_contain(&json(r#"["foo bar", "bar"]"#), &json("\"foo\""), false),
        Some("expected [\"foo bar\",\"bar\"] to contain \"foo\"".to_string())
    );
    assert_eq!(
        to_contain(&json(r#"["foo", "bar"]"#), &json("\"foo\""), true),
        Some("expected [\"foo\",\"bar\"] to not contain \"foo\"".to_string())
    );
}

#[test]
fn test_boolean() {
    assert_eq!(to_equal(&json("true"), &json("true"), false), None);
    assert_eq!(
        to_equal(&json("true"), &json("false"), false),
        Some("expected true to equal false".to_string())
    );
    assert_eq!(
        to_equal(&json("true"), &json("true"), true),
        Some("expected true to not equal true".to_string())
    );
}

#[test]
fn test_number() {
    assert_eq!(to_equal(&json("0"), &json("0"), false), None);
    assert_eq!(to_equal(&float(0.4), &float(0.4), false), None);
    assert_eq!(
        to_equal(&json("0"), &json("1"), false),
        Some("expected 0 to equal 1".to_string())
    );
    assert_eq!(
        to_equal(&float(0.5), &float(0.5), true),
        Some("expected 0.5 to not equal 0.5".to_string())
    );
}

#[test]
fn test_string() {
    assert_eq!(to_equal(&json("\"foo\""), &json("\"foo\""), false), None);
    assert_eq!(
        to_equal(&json("\"foo\""), &json("\"bar\""), false),
        Some("expected foo to equal bar".to_string())
    );
    assert_eq!(
        to_equal(&json("\"foo\""), &json("\"foo\""), true),
        Some("expected foo to not equal foo".to_string())
    );
}

#[test]
fn test_object() {
    assert_eq!(
        to_equal(&json(r#"{ "a": "b" }"#), &json(r#"{ "a": "b" }"#), false),
        None
    );
    assert_eq!(
        to_equal(&json(r#"{ "a": "b" }"#), &json(r#"{ "c": "d" }"#), false),
        Some("expected {\"a\":\"b\"} to equal {\"c\":\"d\"}".to_string())
    );
    assert_eq!(
        to_equal(&json(r#"{ "a": "b" }"#), &json(r#"{ "a": "b" }"#), true),
        Some("expected {\"a\":\"b\"} to not equal {\"a\":\"b\"}".to_string())
    );
}

#[test]
fn to_equal_test_array() {
    assert_eq!(
        to_equal(&json(r#"["a", "b"]"#), &json(r#"["a", "b"]"#), false),
        None
    );
    assert_eq!(
        to_equal(&json(r#"["a", "b"]"#), &json(r#"["c", "d"]"#), false),
        Some("expected [\"a\",\"b\"] to equal [\"c\",\"d\"]".to_string())
    );
    assert_eq!(
        to_equal(&json(r#"["a", "b"]"#), &json(r#"["a", "b"]"#), true),
        Some("expected [\"a\",\"b\"] to not equal [\"a\",\"b\"]".to_string())
    );
}

#[test]
fn to_equal_test_nested_object() {
    let nested = r#"{ "user": { "name": "Test", "friends": [{ "name": "Test friend" }] } }"#;
    assert_eq!(to_equal(&json(nested), &json(nested), false), None);
    assert_eq!(
        to_equal(&json(nested), &json(r#"{ "c": "d" }"#), false),
        Some("expected {\"user\":{\"friends\":[{\"name\":\"Test friend\"}],\"name\":\"Test\"}} to equal {\"c\":\"d\"}".to_string())
    );
    assert_eq!(
        to_equal(&json(nested), &json(nested), true),
        Some("expected {\"user\":{\"friends\":[{\"name\":\"Test friend\"}],\"name\":\"Test\"}} to not equal {\"user\":{\"friends\":[{\"name\":\"Test friend\"}],\"name\":\"Test\"}}".to_string())
    );
}

#[test]
fn to_exist_test_pass() {
    assert_eq!(to_exist(&json("0"), &Value::Null, false), None);
    assert_eq!(to_exist(&json("false"), &Value::Null, false), None);
    assert_eq!(to_exist(&json("{}"), &Value::Null, false), None);
    assert_eq!(to_exist(&Value::Null, &Value::Null, true), None);
}

#[test]
fn to_exist_test_fail() {
    assert_eq!(
        to_exist(&Value::Null, &Value::Null, false),
        Some("expected null to exist".to_string())
    );
}

#[test]
fn to_match_test_pass() {
    assert_eq!(to_match(&json("\"foo bar\""), &json("\"foo\""), false), None);
    assert_eq!(to_match(&json("\"123\""), &json("1"), false), None);
    assert_eq!(to_match(&json(r#"{ "test": true }"#), &json("true"), false), None);
    assert_eq!(
        to_match(
            &json(r#"{ "test": { "user": "Test McTest" } }"#),
            &json("\"Test McTest\""),
            false
        ),
        None
    );
    assert_eq!(
        to_match(
            &json(r#"{ "nested": { "foo": "bar" } }"#),
            &json(r#"{ "foo": "bar" }"#),
            false
        ),
        None
    );
}

#[test]
fn to_match_test_fail() {
    assert_eq!(
        to_match(&json("true"), &json("\"false\""), false),
        Some("expected true to match \"false\"".to_string())
    );
    assert_eq!(
        to_match(&json(r#"["foo bar", "bar"]"#), &json("\"baz\""), false),
        Some("expected [\"foo bar\",\"bar\"] to match \"baz\"".to_string())
    );
    assert_eq!(
        to_match(&json(r#"["foo", "bar"]"#), &json("\"foo\""), true),
        Some("expected [\"foo\",\"bar\"] to not match \"foo\"".to_string())
    );
}

#[test]
fn to_match_takes_a_regular_expression() {
    assert_eq!(to_match(&json("\"order-1234\""), &json("\"^order-[0-9]+$\""), false), None);
    assert_eq!(
        to_match(&json("\"order-12x4\""), &json("\"^order-[0-9]+$\""), false),
        message("expected \"order-12x4\" to match \"^order-[0-9]+$\"")
    );
    assert_eq!(to_match(&json("\"a.c\""), &json("\"a.c\""), false), None);
    assert_eq!(to_match(&json("\"abc\""), &json("\"a.c\""), false), None);
}

#[test]
fn a_pattern_that_is_no_regular_expression_is_a_fault() {
    assert_eq!(
        try_to_match(&json("\"abc\""), &json("\"(\""), false),
        Err(ConfigError::InvalidPattern)
    );
    assert_eq!(try_to_match(&json("\"abc\""), &json("\"b\""), false), Ok(None));
    assert_eq!(
        TestName::ToMatch.run(&json("\"abc\""), &json("\"[\""), true),
        Err(ConfigError::InvalidPattern)
    );
}

#[test]
fn match_verdict_follows_what_was_found() {
    let a = json("\"abc\"");
    let b = json("\"b\"");
    assert_eq!(match_verdict(&a, &b, false, true), None);
    assert_eq!(
        match_verdict(&a, &b, false, false),
        message("expected \"abc\" to match \"b\"")
    );
    assert_eq!(
        match_verdict(&a, &b, true, true),
        message("expected \"abc\" to not match \"b\"")
    );
    assert_eq!(match_verdict(&a, &b, true, false), None);
}

#[test]
fn to_have_length_counts_items_and_bytes() {
    assert_eq!(to_have_length(&json("[1, 2, 3]"), &json("\"3\""), false), None);
    assert_eq!(to_have_length(&json("[1, 2, 3]"), &json("3"), false), None);
    assert_eq!(to_have_length(&json("[]"), &json("0"), false), None);
    assert_eq!(to_have_length(&json("\"abc\""), &json("\"3\""), false), None);
    assert_eq!(to_have_length(&json("\"ü\""), &json("2"), false), None);
    assert_eq!(to_have_length(&json("[1, 2, 3]"), &json("\"3.0\""), false), None);
    assert_eq!(
        to_have_length(&json("[1, 2, 3]"), &json("\"2\""), false),
        message("expected array to have length 2 but got 3")
    );
    assert_eq!(
        to_have_length(&json("\"abc\""), &json("\"3\""), true),
        message("expected string to not have length 3 but got 3")
    );
    assert_eq!(to_have_length(&json("\"abc\""), &json("\"4\""), true), None);
}

#[test]
fn to_have_length_fails_either_way_on_other_kinds() {
    for not in [false, true] {
        assert_eq!(
            to_have_length(&json("5"), &json("1"), not),
            message("expected 5 to be string or array")
        );
        assert_eq!(
            to_have_length(&json("{}"), &json("0"), not),
            message("expected {} to be string or array")
        );
        assert_eq!(
            to_have_length(&json("[1]"), &json("\"one\""), not),
            message("expected [1] to be string or array")
        );
    }
}

#[test]
fn to_be_empty_fails_either_way_on_other_kinds() {
    for not in [false, true] {
        assert_eq!(
            to_be_empty(&json("5"), &Value::Null, not),
            message("expected a string, array or object")
        );
        assert_eq!(
            to_be_empty(&json("true"), &Value::Null, not),
            message("expected a string, array or object")
        );
    }
    assert_eq!(to_be_empty(&json("[1]"), &Value::Null, true), None);
    assert_eq!(to_be_empty(&json("[1]"), &Value::Null, false), message("expected [1] to be empty"));
}

#[test]
fn a_comparison_of_what_is_no_number_fails_either_way() {
    for not in [false, true] {
        assert_eq!(
            to_be_above(&json("null"), &json("1"), not),
            message("expected null and 1 to be numbers")
        );
        assert_eq!(
            to_be_at_most(&json("1"), &json("\"x1\""), not),
            message("expected 1 and \"x1\" to be numbers")
        );
    }
}

#[test]
fn a_status_is_compared_with_the_text_of_a_check() {
    assert_eq!(to_be_above(&json("200"), &json("\"199\""), false), None);
    assert_eq!(
        to_be_above(&json("100"), &json("\"199\""), false),
        message("expected 100 to be above 199")
    );
    assert_eq!(to_be_above(&json("100"), &json("\"199\""), true), None);
}

#[test]
fn numbers_are_compared_by_their_value() {
    let less = [
        ("-1", "0"),
        ("-0.5", "-0.25"),
        ("0", "0.001"),
        ("9", "10"),
        ("9.99", "10"),
        ("1e2", "101"),
        ("99", "1e2"),
        ("1.5e-3", "0.002"),
        ("-1e3", "-999"),
        ("007", "8"),
        ("+3", "4"),
        ("0.1", "0.10001"),
        ("12", "12.5"),
    ];
    for (a, b) in less {
        let a = Value::String(a.to_string());
        let b = Value::String(b.to_string());
        assert_eq!(to_be_below(&a, &b, false), None, "{:?} < {:?}", a, b);
        assert_eq!(to_be_above(&b, &a, false), None, "{:?} > {:?}", b, a);
        assert_eq!(to_be_at_least(&a, &b, true), None);
        assert_eq!(to_be_at_most(&b, &a, true), None);
    }
    let same = [("1", "1.0"), ("-0", "0"), ("1e2", "100"), ("0.50", "5e-1"), ("010", "10"), ("0", "0.000")];
    for (a, b) in same {
        let a = Value::String(a.to_string());
        let b = Value::String(b.to_string());
        assert_eq!(to_be_at_least(&a, &b, false), None, "{:?} >= {:?}", a, b);
        assert_eq!(to_be_at_most(&a, &b, false), None, "{:?} <= {:?}", a, b);
        assert_eq!(to_be_below(&a, &b, true), None);
        assert_eq!(to_be_above(&a, &b, true), None);
    }
}

#[test]
fn what_writes_a_number() {
    for text in ["0", "-12", "+7", "3.25", "1e9", "1E-9", "2.5e+3", "000", "1e123456789"] {
        assert!(to_number(&Value::String(text.to_string())).is_some(), "{}", text);
    }
    for text in ["", "-", "1.", ".5", "1e", "e5", "1e+", " 1", "1 ", "0x1F", "1e1234567890", "--1", "1.2.3", "NaN"] {
        assert!(to_number(&Value::String(text.to_string())).is_none(), "{}", text);
    }
    assert!(to_number(&json("null")).is_none());
    assert!(to_number(&json("true")).is_none());
    assert!(to_number(&json("[1]")).is_none());
    assert!(to_number(&json("12")).is_some());
}

#[test]
fn the_words_of_a_message() {
    assert_eq!(to(false), "to");
    assert_eq!(to(true), "to not");
    assert_eq!(verb("is", "is not", false), "is");
    assert_eq!(verb("is", "is not", true), "is not");
    assert!(did_pass(true, false));
    assert!(!did_pass(false, false));
    assert!(!did_pass(true, true));
    assert!(did_pass(false, true));
}

#[test]
fn the_string_form_of_a_value() {
    assert_eq!(to_string(&json("\"a \\\"b\\\"\"")), "a \"b\"");
    assert_eq!(to_string(&json("null")), "null");
    assert_eq!(to_string(&json("1.5")), "1.5");
    assert_eq!(to_string(&json(r#"{"b": [1, {"c": null}], "a": "x\ny"}"#)), "{\"a\":\"x\\ny\",\"b\":[1,{\"c\":null}]}");
    assert_eq!(to_string(&json(r#"["é", "\u0001", "\\", "/"]"#)), "[\"é\",\"\\u0001\",\"\\\\\",\"/\"]");
}

#[test]
fn tests_are_found_by_name() {
    let names = [
        "to_equal", "to_be_above", "to_be_at_least", "to_be_below", "to_be_at_most", "to_be_true",
        "to_be_false", "to_be_null", "to_exist", "to_be_undefined", "to_be_object", "to_be_array",
        "to_be_string", "to_be_number", "to_be_boolean", "to_contain", "to_have_length",
        "to_be_empty", "to_match",
    ];
    for name in names {
        let test = ValueAssertions::get(name).unwrap();
        assert_eq!(test.name(), name);
    }
    assert_eq!(ValueAssertions::get("to_be_ok"), Err(ConfigError::UnknownTest));
    assert_eq!(ValueAssertions::get("equal"), Err(ConfigError::UnknownTest));
    assert_eq!(ValueAssertions::get(""), Err(ConfigError::UnknownTest));
    assert!(TestName::ToBeEmpty.takes_no_operand());
    assert!(!TestName::ToEqual.takes_no_operand());
}

#[test]
fn an_inverted_check_passes_where_the_plain_one_fails() {
    let values = [
        json("null"), json("true"), json("false"), json("0"), json("12"), json("\"12\""),
        json("\"\""), json("\"abc\""), json("[]"), json("[12, \"abc\"]"), json("{}"),
        json(r#"{"a": 1}"#),
    ];
    let tests = [
        TestName::ToEqual, TestName::ToBeTrue, TestName::ToBeFalse, TestName::ToBeNull,
        TestName::ToExist, TestName::ToBeUndefined, TestName::ToBeObject, TestName::ToBeArray,
        TestName::ToBeString, TestName::ToBeNumber, TestName::ToBeBoolean, TestName::ToContain,
        TestName::ToMatch,
    ];
    for test in tests {
        for a in &values {
            for b in [json("\"12\""), json("\"abc\""), json("null")] {
                let plain = test.run(a, &b, false).unwrap();
                let inverted = test.run(a, &b, true).unwrap();
                assert_eq!(plain.is_none(), inverted.is_some(), "{:?} {:?} {:?}", test, a, b);
            }
        }
    }
}
