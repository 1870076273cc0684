use capter::assertion::check::parse_assertion_string;
use capter::assertion::{Assertion, AssertionData, TestName};
use capter::error::ConfigError;
use capter::value::Value;
use capter::workflow::WorkflowConfigAssertion;

fn convert(value: &serde_json::Value) -> Value {
    match value {
        serde_json::Value::Null => Value::Null,
        serde_json::Value::Bool(b) => Value::Bool(*b),
        serde_json::Value::Number(n) => Value::Number(n.to_string()),
        serde_json::Value::String(s) => Value::String(s.clone()),
        serde_json::Value::Array(items) => Value::Array(items.iter().map(convert).collect()),
        serde_json::Value::Object(members) => {
            let mut object = Value::object();
            for (key, member) in members {
                object = object.put(key.clone(), convert(member));
            }
            object
        }
    }
}

fn json(text: &str) -> Value {
    convert(&serde_json::from_str(text).unwrap())
}

fn text(s: &str) -> Value {
    Value::String(s.to_string())
}

fn data(status: Option<u16>, body: &str) -> AssertionData {
    AssertionData {
        body: json(body),
        headers: json(r#"{ "content-type": "application/json" }"#),
        duration: 500,
        status,
    }
}

#[test]
fn test_assertion() {
    let data = json(r#"{ "env": { "name": "Test McTest" } }"#);
    let assertion_data = AssertionData {
        body: json(r#"{ "user": { "name": "Test McTest" } }"#),
        headers: json(r#"{ "content-type": "application/json" }"#),
        duration: 500,
        status: Some(200),
    };

    let assertion = Assertion::from_assertion(
        &WorkflowConfigAssertion::expect("body.user.name to_equal ${{ env.name }}".to_string()),
        &data,
    )
    .unwrap();
    let result = assertion.evaluate(&assertion_data).unwrap();
    assert_eq!(result.passed, true);

    let assertion = Assertion::from_assertion(
        &WorkflowConfigAssertion::expect_not("body.user.name to_equal bad value".to_string()),
        &data,
    )
    .unwrap();
    let result = assertion.evaluate(&assertion_data).unwrap();
    assert_eq!(result.passed, true);

    let assertion = Assertion::from_assertion(
        &WorkflowConfigAssertion::expect("headers.nope to_be_undefined".to_string()),
        &data,
    )
    .unwrap();
    let result = assertion.evaluate(&assertion_data).unwrap();
    assert_eq!(result.passed, true);

    let assertion = Assertion::from_assertion(
        &WorkflowConfigAssertion::expect_not("body to_be_empty".to_string()),
        &data,
    )
    .unwrap();
    let result = assertion.evaluate(&assertion_data).unwrap();
    assert_eq!(result.passed, true);

    let assertion = Assertion::from_assertion(
        &WorkflowConfigAssertion::expect("body.name to_equal ${{ mask env.name }}".to_string()),
        &data,
    )
    .unwrap();
    let result = assertion.evaluate(&assertion_data).unwrap();
    assert_eq!(result.passed, false);
    assert_eq!(result.message, Some("Hidden because of mask".to_string()));
}

fn parsed(check: &str) -> (String, TestName, Value) {
    let t = parse_assertion_string(check, false).unwrap();
    (t.property, t.test, t.value)
}

#[test]
fn a_check_is_read_by_the_name_of_its_test() {
    assert_eq!(
        parsed("status to_equal 200"),
        ("status".to_string(), TestName::ToEqual, text("200"))
    );
    assert_eq!(
        parsed("body.0.title to_be_string"),
        ("body.0.title".to_string(), TestName::ToBeString, Value::Null)
    );
    assert_eq!(
        parsed("headers.x-id to_contain 5 ok"),
        ("headers.x-id".to_string(), TestName::ToContain, text("5 ok"))
    );
    assert_eq!(
        parsed("body items to_be_array"),
        ("body.items".to_string(), TestName::ToBeArray, Value::Null)
    );
    assert_eq!(
        parsed("body 0 to_equal a b  c"),
        ("body.0".to_string(), TestName::ToEqual, text("a b c"))
    );
    assert_eq!(
        parsed("  status \t to_be_above   199  "),
        ("status".to_string(), TestName::ToBeAbove, text("199"))
    );
}

#[test]
fn the_rules_are_tried_in_their_order() {
    // two words behind the path, the last a test without an operand: a nested path
    assert_eq!(
        parsed("a to_equal to_be_null"),
        ("a.to_equal".to_string(), TestName::ToBeNull, Value::Null)
    );
    // the last names a test with an operand: the first test name decides
    assert_eq!(
        parsed("a to_equal to_equal"),
        ("a".to_string(), TestName::ToEqual, text("to_equal"))
    );
    assert_eq!(
        parsed("a to_be_null x"),
        ("a".to_string(), TestName::ToBeNull, text("x"))
    );
    assert_eq!(
        parsed("a b to_be_null x"),
        ("a.b".to_string(), TestName::ToBeNull, text("x"))
    );
    assert_eq!(
        parsed("a to_match to_be_empty to_be_empty"),
        ("a".to_string(), TestName::ToMatch, text("to_be_empty to_be_empty"))
    );
}

#[test]
fn what_is_no_check_is_a_fault() {
    for check in [
        "",
        "   ",
        "status",
        "status to_equal",
        "status 200",
        "status equal 200",
        "status to_be_ok",
        "a b c to_equal 1",
        "a b to_equal",
        "to_equal",
        "a to_Equal 1",
    ] {
        let result = parse_assertion_string(check, false);
        assert_eq!(result.err(), Some(ConfigError::InvalidAssertion), "{:?}", check);
    }
}

#[test]
fn the_flag_of_a_check_is_kept() {
    assert!(parse_assertion_string("a to_be_null", true).unwrap().not);
    assert!(!parse_assertion_string("a to_be_null", false).unwrap().not);
}

fn check(text: &str, context: &Value, against: &AssertionData) -> (bool, Option<String>) {
    let assertion =
        Assertion::from_assertion(&WorkflowConfigAssertion::expect(text.to_string()), context)
            .unwrap();
    let result = assertion.evaluate(against).unwrap();
    (result.passed, result.message)
}

#[test]
fn a_status_above() {
    let context = Value::object();
    assert_eq!(
        check("status to_be_above 199", &context, &data(Some(200), "null")),
        (true, None)
    );
    assert_eq!(
        check("status to_be_above 199", &context, &data(Some(100), "null")),
        (false, Some("expected 100 to be above 199".to_string()))
    );
}

#[test]
fn an_empty_body() {
    let context = Value::object();
    assert_eq!(check("body to_be_empty", &context, &data(Some(200), "[]")), (true, None));
    assert_eq!(
        check("body to_be_empty", &context, &data(Some(200), "[1]")),
        (false, Some("expected [1] to be empty".to_string()))
    );
    for inverted in [false, true] {
        let text = "body to_be_empty".to_string();
        let assertion = if inverted {
            WorkflowConfigAssertion::expect_not(text)
        } else {
            WorkflowConfigAssertion::expect(text)
        };
        let assertion = Assertion::from_assertion(&assertion, &context).unwrap();
        let result = assertion.evaluate(&data(Some(200), "5")).unwrap();
        assert_eq!(result.passed, false);
        assert_eq!(result.message, Some("expected a string, array or object".to_string()));
    }
}

#[test]
fn a_check_sees_status_body_headers_and_duration() {
    let context = Value::object();
    let against = data(Some(201), r#"{ "items": [{ "id": 7 }] }"#);
    assert_eq!(check("status to_equal 201", &context, &against), (true, None));
    assert_eq!(check("duration to_equal 500", &context, &against), (true, None));
    assert_eq!(check("body.items.0.id to_equal 7", &context, &against), (true, None));
    assert_eq!(check("body items.0.id to_be_number", &context, &against), (true, None));
    assert_eq!(
        check("headers.content-type to_contain json", &context, &against),
        (true, None)
    );
    assert_eq!(check("body.items.1 to_be_undefined", &context, &against), (true, None));
    assert_eq!(check("body.items.01 to_be_undefined", &context, &against), (true, None));
    assert_eq!(check("nothing to_be_null", &context, &against), (true, None));
    let unreachable = data(None, "null");
    assert_eq!(check("status to_be_null", &context, &unreachable), (true, None));
    assert_eq!(
        check("status to_equal 200", &context, &unreachable),
        (false, Some("expected null to equal 200".to_string()))
    );
}

#[test]
fn a_masked_check_shows_nothing_of_the_secret() {
    let context = json(r#"{ "env": { "token": "s3cr3t" } }"#);
    let passing = data(Some(200), r#"{ "token": "s3cr3t" }"#);
    let failing = data(Some(200), r#"{ "token": "other" }"#);
    for against in [&passing, &failing] {
        let assertion = Assertion::from_assertion(
            &WorkflowConfigAssertion::expect(
                "body.token to_equal ${{ mask env.token }}".to_string(),
            ),
            &context,
        )
        .unwrap();
        let result = assertion.evaluate(against).unwrap();
        assert_eq!(result.message, Some("Hidden because of mask".to_string()));
        assert_eq!(result.assertion.value, text("****"));
        assert_eq!(result.assertion.property, "body.token");
        assert_eq!(result.assertion.test, TestName::ToEqual);
    }
    let assertion = Assertion::from_assertion(
        &WorkflowConfigAssertion::expect("body.token to_equal ${{ mask env.token }}".to_string()),
        &context,
    )
    .unwrap();
    assert_eq!(assertion.evaluate(&passing).unwrap().passed, true);
    assert_eq!(assertion.evaluate(&failing).unwrap().passed, false);
    assert_eq!(assertion.get_masked_assertion_test().unwrap().value, text("****"));
}

#[test]
fn the_faults_of_a_check() {
    let context = json(r#"{ "env": { "name": "a b" } }"#);
    let against = data(Some(200), "null");
    let invalid = Assertion::from_assertion(
        &WorkflowConfigAssertion::expect("status to_equal ${{ a b c }}".to_string()),
        &context,
    );
    assert_eq!(invalid.err(), Some(ConfigError::InvalidTemplate));

    let unreadable = Assertion::from_assertion(
        &WorkflowConfigAssertion::expect("status is 200".to_string()),
        &context,
    )
    .unwrap();
    assert_eq!(unreadable.fault(), Some(ConfigError::InvalidAssertion));
    assert_eq!(unreadable.evaluate(&against).err(), Some(ConfigError::InvalidAssertion));

    let pattern = Assertion::from_assertion(
        &WorkflowConfigAssertion::expect("status to_match (".to_string()),
        &context,
    )
    .unwrap();
    assert_eq!(pattern.fault(), Some(ConfigError::InvalidPattern));
    assert_eq!(pattern.evaluate(&against).err(), Some(ConfigError::InvalidPattern));

    let fine = Assertion::from_assertion(
        &WorkflowConfigAssertion::expect("status to_match ^2".to_string()),
        &context,
    )
    .unwrap();
    assert_eq!(fine.fault(), None);
    assert_eq!(fine.evaluate(&against).unwrap().passed, true);
}
