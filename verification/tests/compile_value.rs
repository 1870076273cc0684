use capter::compile::{compile_string, compile_value};
use capter::error::ConfigError;
use capter::value::Value;

fn convert(value: &serde_json::Value) -> Value {
    match value {
        serde_json::Value::Null => Value::Null,
        serde_json::Value::Bool(b) => Value::Bool(*b),
        serde_json::Value::Number(n) => Value::Number(n.to_string()),
        serde_json::Value::String(s) => Value::String(s.clone()),
        serde_json::Value::Array(items) => Value::Array(items.iter().map(convert).collect()),
        serde_json::Value::Object(members) => {
            let mut object = Value::object();
            for (key, member) in members {
                object = object.put(key.clone(), convert(member));
            }
            object
        }
    }
}

fn json(text: &str) -> Value {
    convert(&serde_json::from_str(text).unwrap())
}

fn yaml(text: &str) -> Value {
    convert(&serde_yaml::from_str::<serde_json::Value>(text).unwrap())
}

fn text(s: &str) -> Value {
    Value::String(s.to_string())
}

fn number(s: &str) -> Value {
    Value::number(s).unwrap()
}

fn at<'a>(value: &'a Value, key: &str) -> &'a Value {
    value.get(key).unwrap()
}

fn item(value: &Value, index: usize) -> &Value {
    match value {
        Value::Array(items) => &items[index],
        _ => panic!("no array"),
    }
}

#[test]
fn value_test_plain() {
    let test_value = yaml("---\nname: ${{ user.name }}\n");
    let data = json(r#"{ "user": { "name":  "Test McTest" }}"#);
    let output = compile_value(Some(test_value), &data).unwrap();

    assert_eq!(at(&output.raw, "name"), &text("Test McTest"));
    assert_eq!(at(&output.masked, "name"), &text("Test McTest"));
}

#[test]
fn value_test_masking() {
    let test_value = yaml("---\nname: ${{ mask user.name }}\n");
    let data = json(r#"{ "user": { "name":  "Test McTest" }}"#);
    let output = compile_value(Some(test_value), &data).unwrap();

    assert_eq!(at(&output.raw, "name"), &text("Test McTest"));
    assert_eq!(at(&output.masked, "name"), &text("****"));
}

#[test]
fn test_complex_structures() {
    let test_value = yaml(
        "---\narray:\n  - ${{ mask user.name }}\n  - Age ${{ user.age }}\n  - static text\nuser:\n  name: ${{ mask user.name }}\n  age: ${{ mask user.age }}\n",
    );
    let data = json(r#"{ "user": { "name":  "Test McTest", "age": 30 }}"#);
    let output = compile_value(Some(test_value), &data).unwrap();

    assert_eq!(item(at(&output.raw, "array"), 0), &text("Test McTest"));
    assert_eq!(item(at(&output.masked, "array"), 0), &text("****"));
    assert_eq!(item(at(&output.raw, "array"), 1), &text("Age 30"));
    assert_eq!(item(at(&output.masked, "array"), 1), &text("Age 30"));
    assert_eq!(item(at(&output.masked, "array"), 2), &text("static text"));
    assert_eq!(at(at(&output.raw, "user"), "name"), &text("Test McTest"));
    assert_eq!(at(at(&output.masked, "user"), "name"), &text("****"));
    assert_eq!(at(at(&output.raw, "user"), "age"), &number("30"));
    assert_eq!(at(at(&output.masked, "user"), "age"), &text("****"));
}

#[test]
fn test_value_types() {
    let test_value = yaml(
        "---\nstring: ${{ string }}\nint: ${{ int }}\nfloat: ${{ float }}\nboolean: ${{ boolean }}\nstatic_string: test\nstatic_int: 5\nstatic_float: 1.5\nstatic_boolean: true\n",
    );
    let data = json(r#"{ "string": "test_string", "int": 5, "float": 1.5, "boolean": true }"#);
    let output = compile_value(Some(test_value), &data).unwrap();

    assert_eq!(at(&output.raw, "string"), &text("test_string"));
    assert_eq!(at(&output.raw, "int"), &number("5"));
    assert_eq!(at(&output.raw, "float"), &number("1.5"));
    assert_eq!(at(&output.raw, "boolean"), &Value::Bool(true));

    assert_eq!(at(&output.raw, "static_string"), &text("test"));
    assert_eq!(at(&output.raw, "static_int"), &number("5"));
    assert_eq!(at(&output.raw, "static_float"), &number("1.5"));
    assert_eq!(at(&output.raw, "static_boolean"), &Value::Bool(true));
}

#[test]
fn test_empty_value() {
    let data = Value::Null;
    let output = compile_value(None, &data).unwrap();

    assert_eq!(output.raw, Value::Null);
    assert_eq!(output.masked, Value::Null);
    assert_eq!(output.raw.get("name"), None);
    assert_eq!(output.masked.get("name"), None);
}

#[test]
fn value_test_nested_value() {
    let test_value = yaml("---\nnested_value: ${{ nested }}\n");
    let data = json(r#"{ "nested": { "a": "b", "c": ["d", "e"] } }"#);
    let output = compile_value(Some(test_value), &data).unwrap();

    // Only what reads as null, as a boolean or as a number is typed again: the
    // text of an object stays a string.
    assert_eq!(
        at(&output.raw, "nested_value"),
        &text("{\"a\":\"b\",\"c\":[\"d\",\"e\"]}")
    );
}

#[test]
fn a_text_that_reads_as_a_scalar_is_typed_again() {
    let data = json(r#"{ "n": null, "t": "true", "x": "12.5", "s": "~" }"#);
    let tree = json(r#"["${{ t }}", "${{ x }}", "${{ s }}", "null", "${{ n }}", "a: b", "007", "1e3"]"#);
    let output = compile_value(Some(tree), &data).unwrap();
    assert_eq!(item(&output.raw, 0), &Value::Bool(true));
    assert_eq!(item(&output.raw, 1), &number("12.5"));
    assert_eq!(item(&output.raw, 2), &Value::Null);
    assert_eq!(item(&output.raw, 3), &Value::Null);
    assert_eq!(item(&output.raw, 4), &Value::Null);
    assert_eq!(item(&output.raw, 5), &text("a: b"));
    assert_eq!(item(&output.raw, 6), &text("007"));
    assert_eq!(item(&output.raw, 7), &number("1000.0"));
}

#[test]
fn a_tree_without_placeholders_and_scalars_compiles_to_itself() {
    let tree = json(r#"{ "a": ["x y", { "b": "hello", "c": 5, "d": null, "e": true }], "f": "g h" }"#);
    let data = json(r#"{ "x": 1 }"#);
    let output = compile_value(Some(tree.clone()), &data).unwrap();
    assert_eq!(output.raw, tree);
    assert_eq!(output.masked, tree);
}

#[test]
fn a_string_that_reads_as_a_number_does_not_stay_a_string() {
    let output = compile_value(Some(text("5")), &Value::Null).unwrap();
    assert_eq!(output.raw, number("5"));
    assert_eq!(output.masked, number("5"));
}

#[test]
fn keys_are_not_compiled() {
    let tree = json(r#"{ "${{ a }}": "${{ a }}" }"#);
    let data = json(r#"{ "a": "v" }"#);
    let output = compile_value(Some(tree), &data).unwrap();
    assert_eq!(at(&output.raw, "${{ a }}"), &text("v"));
}

#[test]
fn an_invalid_template_in_a_tree_is_a_fault() {
    let tree = json(r#"{ "a": ["fine", { "b": "${{ one two three }}" }] }"#);
    let output = compile_value(Some(tree), &Value::Null);
    assert_eq!(output.err(), Some(ConfigError::InvalidTemplate));
}

#[test]
fn both_tracks_have_one_shape() {
    let tree = json(r#"{ "a": ["${{ mask s }}", "${{ s }}"], "b": { "c": "${{ mask s }}" } }"#);
    let data = json(r#"{ "s": "secret" }"#);
    let output = compile_value(Some(tree), &data).unwrap();
    assert_eq!(output.raw, json(r#"{ "a": ["secret", "secret"], "b": { "c": "secret" } }"#));
    assert_eq!(output.masked, json(r#"{ "a": ["****", "secret"], "b": { "c": "****" } }"#));
}

#[test]
fn a_placeholder_is_not_read_again() {
    let data = json(r#"{ "a": "${{ b }}", "b": "deep" }"#);
    let output = compile_string("${{ a }} and ${{ b }}", &data).unwrap();
    assert_eq!(output.raw, "${{ b }} and deep");
}

#[test]
fn every_occurrence_is_replaced() {
    let data = json(r#"{ "a": "x" }"#);
    let output = compile_string("${{ a }}-${{ a }}-${{a}}-${{ mask a }}", &data).unwrap();
    assert_eq!(output.raw, "x-x-x-x");
    assert_eq!(output.masked, "x-x-x-****");
}

#[test]
fn a_placeholder_does_not_span_lines() {
    let data = json(r#"{ "a": "x" }"#);
    let output = compile_string("${{ a\n}} ${{ a }}", &data).unwrap();
    assert_eq!(output.raw, "${{ a\n}} x");
}

#[test]
fn a_found_null_is_written_as_null() {
    let data = json(r#"{ "a": null, "n": 3, "o": {"k": [1, "two"]}, "t": true }"#);
    let output = compile_string("${{ a }}|${{ n }}|${{ o }}|${{ t }}|${{ o.k.1 }}|${{ o.k.7 }}", &data).unwrap();
    assert_eq!(output.raw, "null|3|{\"k\":[1,\"two\"]}|true|two|");
}

#[test]
fn a_text_without_placeholders_compiles_to_itself() {
    let data = json(r#"{ "a": "x" }"#);
    for text in ["", "plain", "$ {{ a }}", "${ a }", "${{ a }", "a }} b", "€ ü"] {
        let output = compile_string(text, &data).unwrap();
        assert_eq!(output.raw, text);
        assert_eq!(output.masked, text);
    }
}
