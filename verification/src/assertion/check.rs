//! A check: its text is compiled, read as a path, a test and what the test asks
//! for, and held against the data of a response.
//!
//! The test runs on the raw text and the real data. What is handed back shows
//! the masked text only: where a value of the check was masked, the message is
//! hidden, whether the check passed or failed.

use crate::assertion::assertions::{
    outcome,
    pattern_compiles,
    pattern_found,
    pattern_of,
    pattern_valid,
};
use crate::assertion::utils::text_of;
use crate::assertion::value_assertions::{TestName, test_named};
use crate::compile::string::{CompiledString, compile_string, expanded, valid_template};
use crate::error::ConfigError;
use crate::number::{int_text, write_int};
use crate::path::{lookup, resolve};
use crate::render::string_form;
use crate::text::{chars_of, join_from, joined, split_words, texts, words};
use crate::value::{Json, Value, lemma_members_view, members_view};
use crate::workflow::config::WorkflowConfigAssertion;
use vstd::prelude::*;
use vstd::string::StringExecFns;

verus! {

/// A check that was read: the path to look at, the test, what it asks for, and
/// whether it is inverted.
#[derive(Debug)]
pub struct AssertionTest {
    /// `to_equal`, `to_be_above` and so on.
    pub test: TestName,
    /// The path of the value that is tested, like `body.0.title`.
    pub property: String,
    /// What the test asks for: a string, or null where it asks for nothing.
    pub value: Value,
    /// Whether the check is inverted.
    pub not: bool,
}

/// A check that was read, as the contracts see it.
pub struct AssertionTestView {
    /// The test.
    pub test: TestName,
    /// The path of the value that is tested.
    pub property: Seq<char>,
    /// What the test asks for.
    pub value: Json,
    /// Whether the check is inverted.
    pub not: bool,
}

impl View for AssertionTest {
    type V = AssertionTestView;

    open spec fn view(&self) -> AssertionTestView {
        AssertionTestView {
            test: self.test,
            property: self.property@,
            value: self.value@,
            not: self.not,
        }
    }
}

impl Clone for AssertionTest {
    /// A copy of the check.
    fn clone(&self) -> (r: Self)
        ensures
            r@ == self@,
    {
        AssertionTest {
            test: self.test,
            property: self.property.clone(),
            value: self.value.clone(),
            not: self.not,
        }
    }
}

/// Whether `name` names a test that asks for nothing beside the value.
pub open spec fn unary_named(name: Seq<char>) -> bool {
    test_named(name) matches Some(t) && t.is_unary()
}

/// What the words `w` of a check say. The first word is the path, or the first
/// two are, joined by a dot; the next names the test; the rest, joined by
/// blanks, is what the test asks for. A test that asks for nothing is looked for
/// first, as the last of two or three words; else the first test name among
/// the second and third word decides.
pub open spec fn read(w: Seq<Seq<char>>, not: bool) -> Option<AssertionTestView> {
    if w.len() == 2 && unary_named(w[1]) {
        Some(
            AssertionTestView {
                test: test_named(w[1])->Some_0,
                property: w[0],
                value: Json::Null,
                not,
            },
        )
    } else if w.len() == 3 && unary_named(w[2]) {
        Some(
            AssertionTestView {
                test: test_named(w[2])->Some_0,
                property: w[0] + "."@ + w[1],
                value: Json::Null,
                not,
            },
        )
    } else if w.len() > 2 && test_named(w[1]) is Some {
        Some(
            AssertionTestView {
                test: test_named(w[1])->Some_0,
                property: w[0],
                value: Json::String(joined(w.skip(2), " "@)),
                not,
            },
        )
    } else if w.len() > 3 && test_named(w[2]) is Some {
        Some(
            AssertionTestView {
                test: test_named(w[2])->Some_0,
                property: w[0] + "."@ + w[1],
                value: Json::String(joined(w.skip(3), " "@)),
                not,
            },
        )
    } else {
        None
    }
}

/// What the check `text` says, if it is a check.
pub open spec fn parsed(text: Seq<char>, not: bool) -> Option<AssertionTestView> {
    read(words(text), not)
}

/// Reads a compiled check: `status to_equal 200`, `body.0.title to_be_string`,
/// `headers.x-id to_contain 5 ok`. A text that is no check is a fault of the
/// definition.
pub fn parse_assertion_string(assertion_string: &str, not: bool) -> (r: Result<
    AssertionTest,
    ConfigError,
>)
    ensures
        match parsed(assertion_string@, not) {
            Some(t) => r matches Ok(x) && x@ == t,
            None => r matches Err(e) && e == ConfigError::InvalidAssertion,
        },
{
    let w = split_words(&chars_of(assertion_string));
    let ghost ws = texts(w@);
    assert(ws.len() == w.len());
    assert(forall|k: int| 0 <= k < w.len() ==> #[trigger] ws[k] == w@[k]@);
    if w.len() == 2 {
        if let Some(t) = TestName::from_name(&w[1]) {
            if t.takes_no_operand() {
                return Ok(
                    AssertionTest { test: t, property: w[0].clone(), value: Value::Null, not },
                );
            }
        }
    }
    if w.len() == 3 {
        if let Some(t) = TestName::from_name(&w[2]) {
            if t.takes_no_operand() {
                return Ok(
                    AssertionTest { test: t, property: dotted(&w[0], &w[1]), value: Value::Null, not },
                );
            }
        }
    }
    if w.len() > 2 {
        if let Some(t) = TestName::from_name(&w[1]) {
            return Ok(
                AssertionTest {
                    test: t,
                    property: w[0].clone(),
                    value: Value::String(join_from(&w, 2, " ")),
                    not,
                },
            );
        }
    }
    if w.len() > 3 {
        if let Some(t) = TestName::from_name(&w[2]) {
            return Ok(
                AssertionTest {
                    test: t,
                    property: dotted(&w[0], &w[1]),
                    value: Value::String(join_from(&w, 3, " ")),
                    not,
                },
            );
        }
    }
    Err(ConfigError::InvalidAssertion)
}

/// `a.b`
fn dotted(a: &String, b: &String) -> (r: String)
    ensures
        r@ == a@ + "."@ + b@,
{
    let mut r = a.clone();
    r.append(".");
    r.append(b.as_str());
    r
}

/// What a check is held against: the status, body and headers of a response,
/// and the time the call took, in milliseconds.
#[derive(Debug)]
pub struct AssertionData {
    /// The status; none where no response came.
    pub status: Option<u16>,
    /// The body.
    pub body: Value,
    /// The headers, by name.
    pub headers: Value,
    /// The time the call took, in milliseconds.
    pub duration: i64,
}

impl AssertionData {
    /// The tree in which a check's path is looked up: `body`, `duration`,
    /// `headers` and `status`.
    pub open spec fn tree(self) -> Json {
        Json::Object(
            seq![
                ("body"@, self.body@),
                ("duration"@, Json::Number(int_text(self.duration as int))),
                ("headers"@, self.headers@),
                (
                    "status"@,
                    match self.status {
                        Some(s) => Json::Number(int_text(s as int)),
                        None => Json::Null,
                    },
                ),
            ],
        )
    }

    /// The tree in which a check's path is looked up.
    pub fn to_value(&self) -> (r: Value)
        ensures
            r@ == self.tree(),
    {
        let mut members: Vec<(String, Value)> = Vec::new();
        members.push(("body".to_owned(), self.body.clone()));
        members.push(("duration".to_owned(), Value::Number(write_int(self.duration))));
        members.push(("headers".to_owned(), self.headers.clone()));
        let status = match self.status {
            Some(s) => Value::Number(write_int(s as i64)),
            None => Value::Null,
        };
        members.push(("status".to_owned(), status));
        proof {
            lemma_members_view(members@);
            assert(members_view(members@) =~= self.tree()->Object_0);
        }
        Value::Object(members)
    }
}

/// The result of a check, as it is shown and sent.
#[derive(Debug)]
pub struct AssertionResultData {
    /// Whether the check passed.
    pub passed: bool,
    /// Why it failed; hidden where a value of the check was masked.
    pub message: Option<String>,
    /// The check, read from its masked text.
    pub assertion: AssertionTest,
}

/// The result of a check, as the contracts see it.
pub struct AssertionResultView {
    /// Whether the check passed.
    pub passed: bool,
    /// The message.
    pub message: Option<Seq<char>>,
    /// The check, read from its masked text.
    pub assertion: AssertionTestView,
}

impl View for AssertionResultData {
    type V = AssertionResultView;

    open spec fn view(&self) -> AssertionResultView {
        AssertionResultView {
            passed: self.passed,
            message: text_of(self.message),
            assertion: self.assertion@,
        }
    }
}

impl Clone for AssertionResultData {
    /// A copy of the result.
    fn clone(&self) -> (r: Self)
        ensures
            r@ == self@,
    {
        AssertionResultData {
            passed: self.passed,
            message: match &self.message {
                Some(m) => Some(m.clone()),
                None => None,
            },
            assertion: self.assertion.clone(),
        }
    }
}

/// The views of results in a row.
pub open spec fn results_view(v: Seq<AssertionResultData>) -> Seq<AssertionResultView> {
    v.map_values(|r: AssertionResultData| r@)
}

/// A copy of the results.
pub fn clone_results(v: &Vec<AssertionResultData>) -> (r: Vec<AssertionResultData>)
    ensures
        results_view(r@) == results_view(v@),
{
    let mut r: Vec<AssertionResultData> = Vec::new();
    let mut i: usize = 0;
    while i < v.len()
        invariant
            i <= v.len(),
            r@.len() == i,
            forall|k: int| 0 <= k < i ==> (#[trigger] r@[k])@ == v@[k]@,
        decreases v.len() - i,
    {
        r.push(v[i].clone());
        i += 1;
    }
    assert(results_view(r@) =~= results_view(v@));
    r
}

/// Whether every one of the results is a pass; so it is where there is none.
pub open spec fn all_passed(results: Seq<AssertionResultView>) -> bool {
    forall|i: int| 0 <= i < results.len() ==> (#[trigger] results[i]).passed
}

/// Whether every one of the results is a pass.
pub fn passed_all(results: &Vec<AssertionResultData>) -> (r: bool)
    ensures
        r == all_passed(results_view(results@)),
{
    let mut i: usize = 0;
    while i < results.len()
        invariant
            i <= results.len(),
            forall|k: int| 0 <= k < i ==> (#[trigger] results_view(results@)[k]).passed,
        decreases results.len() - i,
    {
        if !results[i].passed {
            assert(!results_view(results@)[i as int].passed);
            return false;
        }
        assert(results_view(results@)[i as int] == results@[i as int]@);
        i += 1;
    }
    true
}

/// The value that a check tests: what its path finds in the data, null where
/// it finds nothing.
pub open spec fn actual_of(data: Json, property: Seq<char>) -> Json {
    match resolve(data, property) {
        Some(j) => j,
        None => Json::Null,
    }
}

/// What is wrong with a check, if anything: its raw or its masked text is no
/// check, or its pattern no regular expression.
pub open spec fn fault_of(raw: Seq<char>, masked: Seq<char>, not: bool) -> Option<ConfigError> {
    match (parsed(raw, not), parsed(masked, not)) {
        (Some(t), Some(_)) => if t.test == TestName::ToMatch && !pattern_compiles(
            pattern_of(t.value),
        ) {
            Some(ConfigError::InvalidPattern)
        } else {
            None
        },
        _ => Some(ConfigError::InvalidAssertion),
    }
}

/// The result of a check without a fault: the test of the raw text is run on
/// the data, the check that is shown is read from the masked text, and the
/// message is hidden where the two texts differ.
pub open spec fn evaluated(raw: Seq<char>, masked: Seq<char>, not: bool, data: Json) -> AssertionResultView {
    let t = parsed(raw, not)->Some_0;
    let actual = actual_of(data, t.property);
    let out = outcome(
        t.test,
        actual,
        t.value,
        not,
        pattern_found(pattern_of(t.value), string_form(actual)),
    );
    AssertionResultView {
        passed: out is None,
        message: if raw != masked {
            Some("Hidden because of mask"@)
        } else {
            out
        },
        assertion: parsed(masked, not)->Some_0,
    }
}

/// A check of a workflow, compiled against the data of the run.
///
/// `status to_equal ${{ env.STATUS }}` is compiled and can then be held against
/// the data of a response with `evaluate`.
#[derive(Debug)]
pub struct Assertion {
    assertion_string: CompiledString,
    /// Inverts the test: `expected a to NOT be b`.
    not: bool,
}

impl Assertion {
    /// The compiled text with the real values.
    pub closed spec fn raw(self) -> Seq<char> {
        self.assertion_string.raw@
    }

    /// The compiled text with the masked values hidden.
    pub closed spec fn masked(self) -> Seq<char> {
        self.assertion_string.masked@
    }

    /// Whether the check is inverted.
    pub closed spec fn inverted(self) -> bool {
        self.not
    }

    /// Compiles a check against the data of the run.
    pub fn from_assertion(assertion_string: &WorkflowConfigAssertion, workflow_data: &Value) -> (r:
        Result<Assertion, ConfigError>)
        ensures
            valid_template(assertion_string.text()) ==> (r matches Ok(a) && a.raw() == expanded(
                assertion_string.text(),
                workflow_data@,
                false,
            ) && a.masked() == expanded(assertion_string.text(), workflow_data@, true)
                && a.inverted() == assertion_string.inverted()),
            !valid_template(assertion_string.text()) ==> (r matches Err(e) && e
                == ConfigError::InvalidTemplate),
    {
        let (not, compiled) = match assertion_string {
            WorkflowConfigAssertion::expect(val) => (false, compile_string(
                val.as_str(),
                workflow_data,
            )),
            WorkflowConfigAssertion::expect_not(val) => (true, compile_string(
                val.as_str(),
                workflow_data,
            )),
        };
        match compiled {
            Ok(assertion_string) => Ok(Assertion { not, assertion_string }),
            Err(e) => Err(e),
        }
    }

    /// What is wrong with the check, if anything.
    pub fn fault(&self) -> (r: Option<ConfigError>)
        ensures
            r == fault_of(self.raw(), self.masked(), self.inverted()),
    {
        let assertion = match parse_assertion_string(self.assertion_string.raw.as_str(), self.not) {
            Ok(t) => t,
            Err(e) => {
                return Some(e);
            },
        };
        if let Err(e) = self.get_masked_assertion_test() {
            return Some(e);
        }
        match assertion.test {
            TestName::ToMatch => if pattern_valid(&assertion.value) {
                None
            } else {
                Some(ConfigError::InvalidPattern)
            },
            _ => None,
        }
    }

    /// Holds the check against the data of a response. The result shows the masked
    /// text only and can be displayed or sent.
    pub fn evaluate(&self, assertion_data: &AssertionData) -> (r: Result<
        AssertionResultData,
        ConfigError,
    >)
        ensures
            match fault_of(self.raw(), self.masked(), self.inverted()) {
                Some(fault) => r matches Err(e) && e == fault,
                None => r matches Ok(x) && x@ == evaluated(
                    self.raw(),
                    self.masked(),
                    self.inverted(),
                    assertion_data.tree(),
                ),
            },
    {
        let tree = assertion_data.to_value();
        let assertion = match parse_assertion_string(self.assertion_string.raw.as_str(), self.not) {
            Ok(t) => t,
            Err(e) => {
                return Err(e);
            },
        };
        let shown = match self.get_masked_assertion_test() {
            Ok(t) => t,
            Err(e) => {
                return Err(e);
            },
        };
        let null = Value::Null;
        let actual: &Value = match lookup(&tree, assertion.property.as_str()) {
            Some(v) => v,
            None => &null,
        };
        let result = match assertion.test.run(actual, &assertion.value, self.not) {
            Ok(m) => m,
            Err(e) => {
                return Err(e);
            },
        };
        let passed = result.is_none();
        let is_masked = !(self.assertion_string.raw == self.assertion_string.masked);
        Ok(
            AssertionResultData {
                assertion: shown,
                message: match is_masked {
                    true => Some("Hidden because of mask".to_owned()),
                    false => result,
                },
                passed,
            },
        )
    }

    /// The check, read from its masked text.
    pub fn get_masked_assertion_test(&self) -> (r: Result<AssertionTest, ConfigError>)
        ensures
            match parsed(self.masked(), self.inverted()) {
                Some(t) => r matches Ok(x) && x@ == t,
                None => r matches Err(e) && e == ConfigError::InvalidAssertion,
            },
    {
        parse_assertion_string(self.assertion_string.masked.as_str(), self.not)
    }
}

} // verus!
