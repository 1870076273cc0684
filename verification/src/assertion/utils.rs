//! What the tests share: numbers and strings read from values, and the words
//! of a message.

use crate::number::{Decimal, DecimalView, decimal_of, is_decimal, parse_decimal};
use crate::render::{string_form, string_of_value};
use crate::text::chars_of;
use crate::value::{Json, Value};
use vstd::prelude::*;
use vstd::string::StringExecFns;

verus! {

/// The number that a value stands for: a number, or a string that writes one.
pub open spec fn number_of(j: Json) -> Option<DecimalView> {
    match j {
        Json::Number(t) => if is_decimal(t) {
            Some(decimal_of(t))
        } else {
            None
        },
        Json::String(s) => if is_decimal(s) {
            Some(decimal_of(s))
        } else {
            None
        },
        _ => None,
    }
}

/// The view of a message, if there is one.
pub open spec fn text_of(r: Option<String>) -> Option<Seq<char>> {
    match r {
        Some(s) => Some(s@),
        None => None,
    }
}

/// Whether a test with the plain result `result` passes: an inverted test passes
/// where the plain one fails.
pub open spec fn passes(result: bool, not: bool) -> bool {
    result != not
}

/// `to`, or `to not` for an inverted test.
pub open spec fn to_word(not: bool) -> Seq<char> {
    if not {
        "to not"@
    } else {
        "to"@
    }
}

/// The message `expected <subject> to[ not] <what>`.
pub open spec fn expectation(subject: Seq<char>, not: bool, what: Seq<char>) -> Seq<char> {
    "expected "@ + subject + " "@ + to_word(not) + " "@ + what
}

/// No message where the test passes, `message` where it fails.
pub open spec fn verdict(result: bool, not: bool, message: Seq<char>) -> Option<Seq<char>> {
    if passes(result, not) {
        None
    } else {
        Some(message)
    }
}

/// The number that `v` stands for: a number, or a string that writes one.
pub fn to_number(v: &Value) -> (r: Option<Decimal>)
    ensures
        match number_of(v@) {
            Some(d) => r matches Some(n) && n@ == d,
            None => r is None,
        },
{
    match v {
        Value::Number(t) => parse_decimal(&chars_of(t.as_str())),
        Value::String(s) => parse_decimal(&chars_of(s.as_str())),
        _ => None,
    }
}

/// The string form of `v`: a string as it is, anything else as its JSON text.
pub fn to_string(v: &Value) -> (r: String)
    ensures
        r@ == string_form(v@),
{
    string_of_value(v)
}

/// `not` for an inverted test, `is` for a plain one.
pub fn verb(is: &str, not: &str, is_inverted: bool) -> (r: String)
    ensures
        r@ == (if is_inverted {
            not@
        } else {
            is@
        }),
{
    match is_inverted {
        true => not.to_owned(),
        false => is.to_owned(),
    }
}

/// `to`, or `to not` for an inverted test.
pub fn to(not: bool) -> (r: String)
    ensures
        r@ == to_word(not),
{
    verb("to", "to not", not)
}

/// Whether a test with the plain result `result` passes.
pub fn did_pass(result: bool, not: bool) -> (r: bool)
    ensures
        r == passes(result, not),
{
    match not {
        true => !result,
        false => result,
    }
}

/// The message `expected <subject> to[ not] <what>`.
pub fn expect(subject: &str, not: bool, what: &str) -> (r: String)
    ensures
        r@ == expectation(subject@, not, what@),
{
    let mut r = "expected ".to_owned();
    r.append(subject);
    r.append(" ");
    r.append(to(not).as_str());
    r.append(" ");
    r.append(what);
    r
}

/// No message where the test passes, `message` where it fails.
pub fn decide(result: bool, not: bool, message: String) -> (r: Option<String>)
    ensures
        text_of(r) == verdict(result, not, message@),
{
    if did_pass(result, not) {
        None
    } else {
        Some(message)
    }
}

} // verus!
