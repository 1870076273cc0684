use capter::number::{parse_decimal, write_int};
use capter::path::lookup;
use capter::render::render;
use capter::text::{chars_of, contains, less, split_words};
use capter::value::Value;

fn convert(value: &serde_json::Value) -> Value {
    match value {
        serde_json::Value::Null => Value::Null,
        serde_json::Value::Bool(b) => Value::Bool(*b),
        serde_json::Value::Number(n) => Value::Number(n.to_string()),
        serde_json::Value::String(s) => Value::String(s.clone()),
        serde_json::Value::Array(items) => Value::Array(items.iter().map(convert).collect()),
        serde_json::Value::Object(members) => {
            let mut object = Value::object();
            for (key, member) in members {
                object = object.put(key.clone(), convert(member));
            }
            object
        }
    }
}

fn json(text: &str) -> Value {
    convert(&serde_json::from_str(text).unwrap())
}

fn text(s: &str) -> Value {
    Value::String(s.to_string())
}

#[test]
fn a_path_finds_members_and_items() {
    let tree = json(
        r#"{ "user": { "friends": [{ "name": "Ann" }, { "name": "Bo" }], "": "empty", "a.b": 1 }, "0": "zero", "list": [[1, 2], []] }"#,
    );
    assert_eq!(lookup(&tree, "user.friends.0.name"), Some(&text("Ann")));
    assert_eq!(lookup(&tree, "user.friends.1.name"), Some(&text("Bo")));
    assert_eq!(lookup(&tree, "user.friends.2.name"), None);
    assert_eq!(lookup(&tree, "user.friends.name"), None);
    assert_eq!(lookup(&tree, "user.friends.-1"), None);
    assert_eq!(lookup(&tree, "user.friends.+1"), None);
    assert_eq!(lookup(&tree, "user.friends.01"), None);
    assert_eq!(lookup(&tree, "user.friends.1e0"), None);
    assert_eq!(lookup(&tree, "user.friends.99999999999999999999999999"), None);
    assert_eq!(lookup(&tree, "user.friends.0.name.first"), None);
    assert_eq!(lookup(&tree, "user."), Some(&text("empty")));
    assert_eq!(lookup(&tree, "0"), Some(&text("zero")));
    assert_eq!(lookup(&tree, "list.0.1"), Some(&Value::Number("2".to_string())));
    assert_eq!(lookup(&tree, "list.1.0"), None);
    assert_eq!(lookup(&tree, "user.a.b"), None);
    assert_eq!(lookup(&tree, ""), None);
    assert_eq!(lookup(&tree, "missing"), None);
    assert_eq!(lookup(&tree, "user..x"), None);
    assert_eq!(lookup(&json("[5]"), "0"), Some(&Value::Number("5".to_string())));
    assert_eq!(lookup(&json("5"), "0"), None);
    assert_eq!(lookup(&tree, "user"), tree.get("user"));
}

#[test]
fn an_object_keeps_its_members_in_the_order_of_their_keys() {
    let mut object = Value::object();
    for key in ["b", "a", "c", "aa", "", "B", "é", "a"] {
        object = object.put(key.to_string(), text(key));
    }
    let keys: Vec<String> = match &object {
        Value::Object(members) => members.iter().map(|(k, _)| k.clone()).collect(),
        _ => panic!("no object"),
    };
    assert_eq!(keys, vec!["", "B", "a", "aa", "b", "c", "é"]);
    assert_eq!(render(&object), "{\"\":\"\",\"B\":\"B\",\"a\":\"a\",\"aa\":\"aa\",\"b\":\"b\",\"c\":\"c\",\"é\":\"é\"}");
}

#[test]
fn a_later_value_takes_the_place_of_an_earlier_one() {
    let object = Value::object()
        .put("k".to_string(), text("first"))
        .put("j".to_string(), text("other"))
        .put("k".to_string(), text("second"));
    assert_eq!(object.get("k"), Some(&text("second")));
    assert_eq!(object.get("j"), Some(&text("other")));
    assert_eq!(object.get("i"), None);
    assert_eq!(text("x").put("k".to_string(), Value::Null), json(r#"{ "k": null }"#));
    assert_eq!(text("x").get("k"), None);
}

#[test]
fn trees_are_compared_and_copied() {
    let a = json(r#"{ "a": [1, { "b": "c" }, null, true], "d": 1.5 }"#);
    let b = json(r#"{ "d": 1.5, "a": [1, { "b": "c" }, null, true] }"#);
    assert!(a.same(&b));
    assert!(a.same(&a.clone()));
    assert_eq!(a.clone(), a);
    assert!(!a.same(&json(r#"{ "a": [1, { "b": "c" }, null, false], "d": 1.5 }"#)));
    assert!(!a.same(&json(r#"{ "a": [1, { "b": "c" }, null], "d": 1.5 }"#)));
    assert!(!json("1").same(&json("\"1\"")));
    assert!(!json("1").same(&json("1.0")));
    assert!(json("[]").same(&Value::array(vec![])));
    assert!(!json("[]").same(&json("{}")));
}

#[test]
fn a_number_is_made_from_what_writes_one() {
    assert_eq!(Value::number("12.5"), Some(Value::Number("12.5".to_string())));
    assert_eq!(Value::number("twelve"), None);
    assert_eq!(Value::text("a"), text("a"));
    assert!(Value::Null.is_null());
    assert!(!Value::Bool(false).is_null());
}

#[test]
fn a_tree_is_written_as_compact_json() {
    assert_eq!(render(&json("null")), "null");
    assert_eq!(render(&json("[true, false, null, 1, -2.5, \"s\"]")), "[true,false,null,1,-2.5,\"s\"]");
    assert_eq!(render(&json("\"a\\\"b\\\\c\\n\\t\"")), "\"a\\\"b\\\\c\\n\\t\"");
    assert_eq!(render(&json("[]")), "[]");
    assert_eq!(render(&json("{}")), "{}");
    assert_eq!(render(&json("[[], {}]")), "[[],{}]");
    assert_eq!(render(&json(r#"{ "k\"": { "z": 1, "a": [2] } }"#)), "{\"k\\\"\":{\"a\":[2],\"z\":1}}");
    for source in [r#"{"a":[1,2,{"b":null}],"c":"d e","f":1e300}"#, r#"["\u0000","\u001f","€"]"#] {
        let parsed: serde_json::Value = serde_json::from_str(source).unwrap();
        assert_eq!(render(&convert(&parsed)), parsed.to_string());
    }
}

#[test]
fn integers_are_written_in_digits() {
    assert_eq!(write_int(0), "0");
    assert_eq!(write_int(7), "7");
    assert_eq!(write_int(-7), "-7");
    assert_eq!(write_int(1200), "1200");
    assert_eq!(write_int(i64::MAX), "9223372036854775807");
    assert_eq!(write_int(i64::MIN), "-9223372036854775808");
}

#[test]
fn a_number_is_read_into_sign_digits_and_magnitude() {
    let read = |s: &str| {
        let d = parse_decimal(&chars_of(s)).unwrap();
        (d.negative, d.digits.iter().collect::<String>(), d.magnitude)
    };
    assert_eq!(read("0"), (false, "".to_string(), 0));
    assert_eq!(read("-0.00"), (false, "".to_string(), 0));
    assert_eq!(read("12"), (false, "12".to_string(), 2));
    assert_eq!(read("-12.50"), (true, "1250".to_string(), 2));
    assert_eq!(read("0.012"), (false, "12".to_string(), -1));
    assert_eq!(read("1.2e3"), (false, "12".to_string(), 4));
    assert_eq!(read("12e-3"), (false, "12".to_string(), -1));
    assert_eq!(read("+0012.0E+01"), (false, "120".to_string(), 3));
    assert!(parse_decimal(&chars_of("1.e3")).is_none());
}

#[test]
fn texts_are_cut_compared_and_searched() {
    let words = |s: &str| split_words(&chars_of(s));
    assert_eq!(words("a  b\tc\n"), vec!["a", "b", "c"]);
    assert_eq!(words(""), Vec::<String>::new());
    assert_eq!(words(" \r\n "), Vec::<String>::new());
    assert_eq!(words("one"), vec!["one"]);
    assert_eq!(words("a\u{a0}b"), vec!["a\u{a0}b"]);
    let lt = |a: &str, b: &str| less(&chars_of(a), &chars_of(b));
    assert!(lt("", "a"));
    assert!(lt("a", "ab"));
    assert!(lt("ab", "b"));
    assert!(lt("Z", "a"));
    assert!(!lt("a", "a"));
    assert!(!lt("b", "ab"));
    assert!(lt("z", "é"));
    let has = |a: &str, b: &str| contains(&chars_of(a), &chars_of(b));
    assert!(has("hello", "ell"));
    assert!(has("hello", ""));
    assert!(has("", ""));
    assert!(has("hello", "hello"));
    assert!(!has("hello", "hellos"));
    assert!(!has("hello", "lo "));
    assert!(has("aab", "ab"));
}
