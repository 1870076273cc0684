//! The tests. Each holds the value `a` that a path found against `b`, what the
//! check asks for, and gives no message where the check passes and a message
//! where it fails. With `not` the check is inverted: it passes where the plain
//! one fails. A failure that lies in the kind of the values, and not in what
//! they hold, is a failure either way.

use crate::assertion::utils::{
    decide,
    expect,
    expectation,
    number_of,
    text_of,
    to,
    to_number,
    to_string,
    to_word,
    verdict,
};
use crate::assertion::value_assertions::TestName;
use crate::error::ConfigError;
use crate::number::{
    Decimal,
    DecimalView,
    count_digits,
    decimal_less,
    decimal_of,
    decimal_same,
    digits_of,
    lemma_digits_of_is_decimal,
    parse_decimal,
};
use crate::render::{render, rendered, string_form};
use crate::text::{chars_of, contains, occurs_in, string_of};
use crate::value::{Json, Value, items_view, lemma_items_view};
use vstd::prelude::*;
use vstd::string::StringExecFns;

verus! {

/// The error of the `regex` crate.
#[verifier::external_type_specification]
#[verifier::external_body]
pub struct ExRegexError(regex::Error);

/// Whether the `regex` crate takes `pattern` for a regular expression.
pub uninterp spec fn pattern_compiles(pattern: Seq<char>) -> bool;

/// Whether the regular expression `pattern` matches somewhere in `text`.
pub uninterp spec fn pattern_found(pattern: Seq<char>, text: Seq<char>) -> bool;

/// Calls `regex::Regex::new` on `pattern` and, where that gives a regular
/// expression, its `is_match` on `text`. Both depend on their arguments alone:
/// `pattern_compiles` names whether the first succeeds, `pattern_found` what
/// the second returns.
#[verifier::external_body]
fn search(pattern: &str, text: &str) -> (r: Result<bool, regex::Error>)
    ensures
        r is Ok <==> pattern_compiles(pattern@),
        r matches Ok(found) ==> found == pattern_found(pattern@, text@),
{
    regex::Regex::new(pattern).map(|re| re.is_match(text))
}

/// `s` with a backslash in front of each `{`.
pub open spec fn escape_braces(s: Seq<char>) -> Seq<char>
    decreases s.len(),
{
    if s.len() == 0 {
        Seq::empty()
    } else if s.last() == '{' {
        escape_braces(s.drop_last()).push('\\').push('{')
    } else {
        escape_braces(s.drop_last()).push(s.last())
    }
}

/// The number of bytes of `s` in UTF-8, as the machine counts them.
pub open spec fn byte_length(s: Seq<char>) -> usize {
    vstd::utf8::encode_utf8(s).len() as usize
}

/// The pattern of a `to_match` check: the string form of `b`, with each `{`
/// taken literally.
pub open spec fn pattern_of(b: Json) -> Seq<char> {
    escape_braces(string_form(b))
}

/// What a comparison asks of the numbers `x` and `y`.
pub open spec fn holds(test: TestName, x: DecimalView, y: DecimalView) -> bool {
    match test {
        TestName::ToBeAbove => decimal_less(y, x),
        TestName::ToBeAtLeast => !decimal_less(x, y),
        TestName::ToBeBelow => decimal_less(x, y),
        _ => !decimal_less(y, x),
    }
}

/// The words of a comparison.
pub open spec fn comparison_words(test: TestName) -> Seq<char> {
    match test {
        TestName::ToBeAbove => "be above "@,
        TestName::ToBeAtLeast => "be at least "@,
        TestName::ToBeBelow => "be below "@,
        _ => "be at most "@,
    }
}

/// The outcome of a comparison: a failure either way where one of the two
/// values is no number.
pub open spec fn compared(test: TestName, a: Json, b: Json, not: bool) -> Option<Seq<char>> {
    match (number_of(a), number_of(b)) {
        (Some(x), Some(y)) => verdict(
            holds(test, x, y),
            not,
            expectation(string_form(a), not, comparison_words(test) + string_form(b)),
        ),
        _ => Some("expected "@ + rendered(a) + " and "@ + rendered(b) + " to be numbers"@),
    }
}

/// The message of a length that is not the one asked for.
pub open spec fn length_message(kind: Seq<char>, b: Json, not: bool, length: nat) -> Seq<char> {
    "expected "@ + kind + " "@ + to_word(not) + " have length "@ + string_form(b) + " but got "@
        + digits_of(length)
}

/// The outcome of `to_have_length`: a failure either way where `b` is no
/// number or `a` neither an array nor a string.
pub open spec fn measured(a: Json, b: Json, not: bool) -> Option<Seq<char>> {
    match (number_of(b), a) {
        (Some(n), Json::Array(items)) => verdict(
            decimal_same(n, decimal_of(digits_of(items.len()))),
            not,
            length_message("array"@, b, not, items.len()),
        ),
        (Some(n), Json::String(s)) => verdict(
            decimal_same(n, decimal_of(digits_of(byte_length(s) as nat))),
            not,
            length_message("string"@, b, not, byte_length(s) as nat),
        ),
        _ => Some("expected "@ + rendered(a) + " to be string or array"@),
    }
}

/// The outcome of `to_be_empty`: a failure either way where `a` is neither a
/// string, an array nor an object.
pub open spec fn emptied(a: Json, not: bool) -> Option<Seq<char>> {
    match a {
        Json::Array(items) => verdict(
            items.len() == 0,
            not,
            expectation(rendered(a), not, "be empty"@),
        ),
        Json::String(s) => verdict(s.len() == 0, not, expectation(rendered(a), not, "be empty"@)),
        Json::Object(m) => verdict(m.len() == 0, not, expectation(rendered(a), not, "be empty"@)),
        _ => Some("expected a string, array or object"@),
    }
}

/// Whether `a` contains `b`: as one of its items, where `a` is an array; else
/// as a part of its string form.
pub open spec fn holds_within(a: Json, b: Json) -> bool {
    match a {
        Json::Array(items) => items.contains(b),
        _ => occurs_in(string_form(a), string_form(b)),
    }
}

/// What a test without an operand asks of `a`.
pub open spec fn is_so(test: TestName, a: Json) -> bool {
    match test {
        TestName::ToBeTrue => a == Json::Bool(true),
        TestName::ToBeFalse => a == Json::Bool(false),
        TestName::ToBeNull => a is Null,
        TestName::ToBeUndefined => a is Null,
        TestName::ToExist => !(a is Null),
        TestName::ToBeObject => a is Object,
        TestName::ToBeArray => a is Array,
        TestName::ToBeString => a is String,
        TestName::ToBeNumber => a is Number,
        _ => a is Bool,
    }
}

/// The words for what a test without an operand asks.
pub open spec fn so_words(test: TestName) -> Seq<char> {
    match test {
        TestName::ToBeTrue => "be true"@,
        TestName::ToBeFalse => "be false"@,
        TestName::ToBeNull => "be null"@,
        TestName::ToBeUndefined => "be undefined"@,
        TestName::ToExist => "exist"@,
        TestName::ToBeObject => "be an object"@,
        TestName::ToBeArray => "be an array"@,
        TestName::ToBeString => "be a string"@,
        TestName::ToBeNumber => "be a number"@,
        _ => "be a boolean"@,
    }
}

/// The outcome of the test `test` on the value `a`, held against `b`: `None`
/// where the check passes, the message where it fails. `found` says whether the
/// pattern of a `to_match` check was found.
pub open spec fn outcome(test: TestName, a: Json, b: Json, not: bool, found: bool) -> Option<
    Seq<char>,
> {
    match test {
        TestName::ToEqual => verdict(
            string_form(a) == string_form(b),
            not,
            expectation(string_form(a), not, "equal "@ + string_form(b)),
        ),
        TestName::ToBeAbove
        | TestName::ToBeAtLeast
        | TestName::ToBeBelow
        | TestName::ToBeAtMost => compared(test, a, b, not),
        TestName::ToContain => verdict(
            holds_within(a, b),
            not,
            expectation(rendered(a), not, "contain "@ + rendered(b)),
        ),
        TestName::ToHaveLength => measured(a, b, not),
        TestName::ToBeEmpty => emptied(a, not),
        TestName::ToMatch => verdict(
            found,
            not,
            expectation(rendered(a), not, "match "@ + rendered(b)),
        ),
        _ => verdict(is_so(test, a), not, expectation(rendered(a), not, so_words(test))),
    }
}

/// The message of a test without an operand, where it fails.
fn so(a: &Value, not: bool, result: bool, words: &str) -> (r: Option<String>)
    ensures
        text_of(r) == verdict(result, not, expectation(rendered(a@), not, words@)),
{
    decide(result, not, expect(render(a).as_str(), not, words))
}

/// Passes where `a` is the boolean `true`.
pub fn to_be_true(a: &Value, _b: &Value, not: bool) -> (r: Option<String>)
    ensures
        text_of(r) == outcome(TestName::ToBeTrue, a@, _b@, not, false),
{
    let result = match a {
        Value::Bool(v) => *v,
        _ => false,
    };
    so(a, not, result, "be true")
}

/// Passes where `a` is the boolean `false`.
pub fn to_be_false(a: &Value, _b: &Value, not: bool) -> (r: Option<String>)
    ensures
        text_of(r) == outcome(TestName::ToBeFalse, a@, _b@, not, false),
{
    let result = match a {
        Value::Bool(v) => !*v,
        _ => false,
    };
    so(a, not, result, "be false")
}

/// Passes where `a` is null.
pub fn to_be_null(a: &Value, _b: &Value, not: bool) -> (r: Option<String>)
    ensures
        text_of(r) == outcome(TestName::ToBeNull, a@, _b@, not, false),
{
    so(a, not, a.is_null(), "be null")
}

/// Passes where `a` is null: a path that finds nothing gives null.
pub fn to_be_undefined(a: &Value, _b: &Value, not: bool) -> (r: Option<String>)
    ensures
        text_of(r) == outcome(TestName::ToBeUndefined, a@, _b@, not, false),
{
    so(a, not, a.is_null(), "be undefined")
}

/// Passes where `a` is not null.
pub fn to_exist(a: &Value, _b: &Value, not: bool) -> (r: Option<String>)
    ensures
        text_of(r) == outcome(TestName::ToExist, a@, _b@, not, false),
{
    so(a, not, !a.is_null(), "exist")
}

/// Passes where `a` is an object.
pub fn to_be_object(a: &Value, _b: &Value, not: bool) -> (r: Option<String>)
    ensures
        text_of(r) == outcome(TestName::ToBeObject, a@, _b@, not, false),
{
    let result = match a {
        Value::Object(_) => true,
        _ => false,
    };
    so(a, not, result, "be an object")
}

/// Passes where `a` is an array.
pub fn to_be_array(a: &Value, _b: &Value, not: bool) -> (r: Option<String>)
    ensures
        text_of(r) == outcome(TestName::ToBeArray, a@, _b@, not, false),
{
    let result = match a {
        Value::Array(_) => true,
        _ => false,
    };
    so(a, not, result, "be an array")
}

/// Passes where `a` is a string.
pub fn to_be_string(a: &Value, _b: &Value, not: bool) -> (r: Option<String>)
    ensures
        text_of(r) == outcome(TestName::ToBeString, a@, _b@, not, false),
{
    let result = match a {
        Value::String(_) => true,
        _ => false,
    };
    so(a, not, result, "be a string")
}

/// Passes where `a` is a number.
pub fn to_be_number(a: &Value, _b: &Value, not: bool) -> (r: Option<String>)
    ensures
        text_of(r) == outcome(TestName::ToBeNumber, a@, _b@, not, false),
{
    let result = match a {
        Value::Number(_) => true,
        _ => false,
    };
    so(a, not, result, "be a number")
}

/// Passes where `a` is a boolean.
pub fn to_be_boolean(a: &Value, _b: &Value, not: bool) -> (r: Option<String>)
    ensures
        text_of(r) == outcome(TestName::ToBeBoolean, a@, _b@, not, false),
{
    let result = match a {
        Value::Bool(_) => true,
        _ => false,
    };
    so(a, not, result, "be a boolean")
}

/// Passes where `a` and `b` have the same string form.
pub fn to_equal(a: &Value, b: &Value, not: bool) -> (r: Option<String>)
    ensures
        text_of(r) == outcome(TestName::ToEqual, a@, b@, not, false),
{
    let left = to_string(a);
    let right = to_string(b);
    let result = left == right;
    let mut what = "equal ".to_owned();
    what.append(right.as_str());
    decide(result, not, expect(left.as_str(), not, what.as_str()))
}

/// The outcome of a comparison.
fn compare(test: TestName, a: &Value, b: &Value, not: bool, words: &str) -> (r: Option<String>)
    requires
        test == TestName::ToBeAbove || test == TestName::ToBeAtLeast || test
            == TestName::ToBeBelow || test == TestName::ToBeAtMost,
        words@ == comparison_words(test),
    ensures
        text_of(r) == compared(test, a@, b@, not),
{
    match (to_number(a), to_number(b)) {
        (Some(x), Some(y)) => {
            let result = match test {
                TestName::ToBeAbove => y.less(&x),
                TestName::ToBeAtLeast => !x.less(&y),
                TestName::ToBeBelow => x.less(&y),
                _ => !y.less(&x),
            };
            let mut what = words.to_owned();
            what.append(to_string(b).as_str());
            decide(result, not, expect(to_string(a).as_str(), not, what.as_str()))
        },
        _ => {
            let mut message = "expected ".to_owned();
            message.append(render(a).as_str());
            message.append(" and ");
            message.append(render(b).as_str());
            message.append(" to be numbers");
            Some(message)
        },
    }
}

/// Passes where the number `a` is above the number `b`.
pub fn to_be_above(a: &Value, b: &Value, not: bool) -> (r: Option<String>)
    ensures
        text_of(r) == outcome(TestName::ToBeAbove, a@, b@, not, false),
{
    compare(TestName::ToBeAbove, a, b, not, "be above ")
}

/// Passes where the number `a` is `b` or above it.
pub fn to_be_at_least(a: &Value, b: &Value, not: bool) -> (r: Option<String>)
    ensures
        text_of(r) == outcome(TestName::ToBeAtLeast, a@, b@, not, false),
{
    compare(TestName::ToBeAtLeast, a, b, not, "be at least ")
}

/// Passes where the number `a` is below the number `b`.
pub fn to_be_below(a: &Value, b: &Value, not: bool) -> (r: Option<String>)
    ensures
        text_of(r) == outcome(TestName::ToBeBelow, a@, b@, not, false),
{
    compare(TestName::ToBeBelow, a, b, not, "be below ")
}

/// Passes where the number `a` is `b` or below it.
pub fn to_be_at_most(a: &Value, b: &Value, not: bool) -> (r: Option<String>)
    ensures
        text_of(r) == outcome(TestName::ToBeAtMost, a@, b@, not, false),
{
    compare(TestName::ToBeAtMost, a, b, not, "be at most ")
}

/// Passes where `b` is an item of the array `a`, or where the string form of
/// `b` is a part of the string form of an `a` that is no array.
pub fn to_contain(a: &Value, b: &Value, not: bool) -> (r: Option<String>)
    ensures
        text_of(r) == outcome(TestName::ToContain, a@, b@, not, false),
{
    let result = match a {
        Value::Array(items) => {
            proof {
                lemma_items_view(items@);
            }
            let mut i: usize = 0;
            let mut found = false;
            while i < items.len() && !found
                invariant
                    i <= items.len(),
                    found ==> items_view(items@).contains(b@),
                    !found ==> forall|k: int| 0 <= k < i ==> items_view(items@)[k] != b@,
                    items_view(items@).len() == items.len(),
                    forall|k: int|
                        0 <= k < items.len() ==> #[trigger] items_view(items@)[k] == items@[k]@,
                decreases items.len() - i + (if found {
                    0int
                } else {
                    1int
                }),
            {
                if items[i].same(b) {
                    assert(items_view(items@)[i as int] == b@);
                    found = true;
                } else {
                    i += 1;
                }
            }
            found
        },
        _ => contains(&chars_of(to_string(a).as_str()), &chars_of(to_string(b).as_str())),
    };
    let mut what = "contain ".to_owned();
    what.append(render(b).as_str());
    decide(result, not, expect(render(a).as_str(), not, what.as_str()))
}

/// The message of a length that is not the one asked for.
fn length_text(kind: &str, b: &Value, not: bool, length: usize) -> (r: String)
    ensures
        r@ == length_message(kind@, b@, not, length as nat),
{
    let mut message = "expected ".to_owned();
    message.append(kind);
    message.append(" ");
    message.append(to(not).as_str());
    message.append(" have length ");
    message.append(to_string(b).as_str());
    message.append(" but got ");
    let digits = count_digits(length as u64);
    message.append(string_of(&digits, 0, digits.len()).as_str());
    assert(digits@.subrange(0, digits@.len() as int) =~= digits@);
    message
}

/// Whether `n` is the count `length`.
fn is_count(n: &Decimal, length: usize) -> (r: bool)
    ensures
        r == decimal_same(n@, decimal_of(digits_of(length as nat))),
{
    let digits = count_digits(length as u64);
    proof {
        lemma_digits_of_is_decimal(length as nat);
    }
    match parse_decimal(&digits) {
        Some(d) => n.same(&d),
        None => false,
    }
}

/// Passes where the array or string `a` has the length `b`; the length of a
/// string is counted in bytes.
pub fn to_have_length(a: &Value, b: &Value, not: bool) -> (r: Option<String>)
    ensures
        text_of(r) == outcome(TestName::ToHaveLength, a@, b@, not, false),
{
    match (to_number(b), a) {
        (Some(n), Value::Array(items)) => {
            proof {
                lemma_items_view(items@);
            }
            decide(is_count(&n, items.len()), not, length_text("array", b, not, items.len()))
        },
        (Some(n), Value::String(s)) => {
            let length = s.as_str().len();
            decide(is_count(&n, length), not, length_text("string", b, not, length))
        },
        _ => {
            let mut message = "expected ".to_owned();
            message.append(render(a).as_str());
            message.append(" to be string or array");
            Some(message)
        },
    }
}

/// Passes where the string, array or object `a` holds nothing.
pub fn to_be_empty(a: &Value, _b: &Value, not: bool) -> (r: Option<String>)
    ensures
        text_of(r) == outcome(TestName::ToBeEmpty, a@, _b@, not, false),
{
    match a {
        Value::Array(items) => {
            proof {
                lemma_items_view(items@);
            }
            so(a, not, items.len() == 0, "be empty")
        },
        Value::String(s) => so(a, not, s.as_str().is_empty(), "be empty"),
        Value::Object(m) => {
            proof {
                crate::value::lemma_members_view(m@);
            }
            so(a, not, m.len() == 0, "be empty")
        },
        _ => Some("expected a string, array or object".to_owned()),
    }
}

/// `s` with a backslash in front of each `{`.
pub fn escape(s: &str) -> (r: String)
    ensures
        r@ == escape_braces(s@),
{
    let chars = chars_of(s);
    let mut r = String::new();
    let mut i: usize = 0;
    assert(chars@.take(0) =~= Seq::<char>::empty());
    while i < chars.len()
        invariant
            i <= chars.len(),
            r@ == escape_braces(chars@.take(i as int)),
        decreases chars.len() - i,
    {
        assert(chars@.take(i + 1).drop_last() =~= chars@.take(i as int));
        assert(chars@.take(i + 1).last() == chars@[i as int]);
        if chars[i] == '{' {
            r.push('\\');
        }
        r.push(chars[i]);
        i += 1;
    }
    assert(chars@.take(i as int) =~= chars@);
    r
}

/// Whether the pattern of a `to_match` check against `b` is a regular expression.
pub fn pattern_valid(b: &Value) -> (r: bool)
    ensures
        r == pattern_compiles(pattern_of(b@)),
{
    let pattern = escape(to_string(b).as_str());
    search(pattern.as_str(), "").is_ok()
}

/// The outcome of a `to_match` check whose pattern was looked for: passes where
/// it was found.
pub fn match_verdict(a: &Value, b: &Value, not: bool, found: bool) -> (r: Option<String>)
    ensures
        text_of(r) == outcome(TestName::ToMatch, a@, b@, not, found),
{
    let mut what = "match ".to_owned();
    what.append(render(b).as_str());
    decide(found, not, expect(render(a).as_str(), not, what.as_str()))
}

/// Passes where the regular expression `b` matches somewhere in the string form
/// of `a`. A `{` of the pattern is taken literally.
pub fn to_match(a: &Value, b: &Value, not: bool) -> (r: Option<String>)
    requires
        pattern_compiles(pattern_of(b@)),
    ensures
        text_of(r) == outcome(
            TestName::ToMatch,
            a@,
            b@,
            not,
            pattern_found(pattern_of(b@), string_form(a@)),
        ),
{
    let pattern = escape(to_string(b).as_str());
    match search(pattern.as_str(), to_string(a).as_str()) {
        Ok(found) => match_verdict(a, b, not, found),
        Err(_) => None,
    }
}

/// `to_match`, for any `b`: a pattern that is no regular expression is a fault
/// of the definition.
pub fn try_to_match(a: &Value, b: &Value, not: bool) -> (r: Result<Option<String>, ConfigError>)
    ensures
        pattern_compiles(pattern_of(b@)) ==> (r matches Ok(m) && text_of(m) == outcome(
            TestName::ToMatch,
            a@,
            b@,
            not,
            pattern_found(pattern_of(b@), string_form(a@)),
        )),
        !pattern_compiles(pattern_of(b@)) ==> r == Err::<Option<String>, ConfigError>(
            ConfigError::InvalidPattern,
        ),
{
    if pattern_valid(b) {
        Ok(to_match(a, b, not))
    } else {
        Err(ConfigError::InvalidPattern)
    }
}

impl TestName {
    /// Runs the test on `a`, held against `b`.
    pub fn run(&self, a: &Value, b: &Value, not: bool) -> (r: Result<Option<String>, ConfigError>)
        ensures
            *self == TestName::ToMatch && !pattern_compiles(pattern_of(b@)) ==> r == Err::<
                Option<String>,
                ConfigError,
            >(ConfigError::InvalidPattern),
            !(*self == TestName::ToMatch && !pattern_compiles(pattern_of(b@))) ==> (r matches Ok(
                m,
            ) && text_of(m) == outcome(
                *self,
                a@,
                b@,
                not,
                pattern_found(pattern_of(b@), string_form(a@)),
            )),
    {
        match self {
            TestName::ToEqual => Ok(to_equal(a, b, not)),
            TestName::ToBeAbove => Ok(to_be_above(a, b, not)),
            TestName::ToBeAtLeast => Ok(to_be_at_least(a, b, not)),
            TestName::ToBeBelow => Ok(to_be_below(a, b, not)),
            TestName::ToBeAtMost => Ok(to_be_at_most(a, b, not)),
            TestName::ToBeTrue => Ok(to_be_true(a, b, not)),
            TestName::ToBeFalse => Ok(to_be_false(a, b, not)),
            TestName::ToBeNull => Ok(to_be_null(a, b, not)),
            TestName::ToExist => Ok(to_exist(a, b, not)),
            TestName::ToBeUndefined => Ok(to_be_undefined(a, b, not)),
            TestName::ToBeObject => Ok(to_be_object(a, b, not)),
            TestName::ToBeArray => Ok(to_be_array(a, b, not)),
            TestName::ToBeString => Ok(to_be_string(a, b, not)),
            TestName::ToBeNumber => Ok(to_be_number(a, b, not)),
            TestName::ToBeBoolean => Ok(to_be_boolean(a, b, not)),
            TestName::ToContain => Ok(to_contain(a, b, not)),
            TestName::ToHaveLength => Ok(to_have_length(a, b, not)),
            TestName::ToBeEmpty => Ok(to_be_empty(a, b, not)),
            TestName::ToMatch => try_to_match(a, b, not),
        }
    }
}

} // verus!
