//! The tests by name.

use crate::error::ConfigError;
use vstd::prelude::*;

verus! {

/// A test of the assertion language.
#[derive(Debug, Clone, Copy, PartialEq, Eq, Structural)]
pub enum TestName {
    /// `to_equal`
    ToEqual,
    /// `to_be_above`
    ToBeAbove,
    /// `to_be_at_least`
    ToBeAtLeast,
    /// `to_be_below`
    ToBeBelow,
    /// `to_be_at_most`
    ToBeAtMost,
    /// `to_be_true`
    ToBeTrue,
    /// `to_be_false`
    ToBeFalse,
    /// `to_be_null`
    ToBeNull,
    /// `to_exist`
    ToExist,
    /// `to_be_undefined`
    ToBeUndefined,
    /// `to_be_object`
    ToBeObject,
    /// `to_be_array`
    ToBeArray,
    /// `to_be_string`
    ToBeString,
    /// `to_be_number`
    ToBeNumber,
    /// `to_be_boolean`
    ToBeBoolean,
    /// `to_contain`
    ToContain,
    /// `to_have_length`
    ToHaveLength,
    /// `to_be_empty`
    ToBeEmpty,
    /// `to_match`
    ToMatch,
}

/// The test that `name` names.
pub open spec fn test_named(name: Seq<char>) -> Option<TestName> {
    if name == "to_equal"@ {
        Some(TestName::ToEqual)
    } else if name == "to_be_above"@ {
        Some(TestName::ToBeAbove)
    } else if name == "to_be_at_least"@ {
        Some(TestName::ToBeAtLeast)
    } else if name == "to_be_below"@ {
        Some(TestName::ToBeBelow)
    } else if name == "to_be_at_most"@ {
        Some(TestName::ToBeAtMost)
    } else if name == "to_be_true"@ {
        Some(TestName::ToBeTrue)
    } else if name == "to_be_false"@ {
        Some(TestName::ToBeFalse)
    } else if name == "to_be_null"@ {
        Some(TestName::ToBeNull)
    } else if name == "to_exist"@ {
        Some(TestName::ToExist)
    } else if name == "to_be_undefined"@ {
        Some(TestName::ToBeUndefined)
    } else if name == "to_be_object"@ {
        Some(TestName::ToBeObject)
    } else if name == "to_be_array"@ {
        Some(TestName::ToBeArray)
    } else if name == "to_be_string"@ {
        Some(TestName::ToBeString)
    } else if name == "to_be_number"@ {
        Some(TestName::ToBeNumber)
    } else if name == "to_be_boolean"@ {
        Some(TestName::ToBeBoolean)
    } else if name == "to_contain"@ {
        Some(TestName::ToContain)
    } else if name == "to_have_length"@ {
        Some(TestName::ToHaveLength)
    } else if name == "to_be_empty"@ {
        Some(TestName::ToBeEmpty)
    } else if name == "to_match"@ {
        Some(TestName::ToMatch)
    } else {
        None
    }
}

/// Whether `a` and `b` are the same text.
fn same_text(a: &String, b: &str) -> (r: bool)
    ensures
        r == (a@ == b@),
{
    *a == b.to_owned()
}

impl TestName {
    /// Whether the test asks for nothing beside the value it is held against.
    pub open spec fn is_unary(self) -> bool {
        match self {
            TestName::ToBeTrue
            | TestName::ToBeFalse
            | TestName::ToBeNull
            | TestName::ToExist
            | TestName::ToBeUndefined
            | TestName::ToBeObject
            | TestName::ToBeArray
            | TestName::ToBeString
            | TestName::ToBeNumber
            | TestName::ToBeBoolean
            | TestName::ToBeEmpty => true,
            _ => false,
        }
    }

    /// The test's name.
    pub open spec fn spelled(self) -> Seq<char> {
        match self {
            TestName::ToEqual => "to_equal"@,
            TestName::ToBeAbove => "to_be_above"@,
            TestName::ToBeAtLeast => "to_be_at_least"@,
            TestName::ToBeBelow => "to_be_below"@,
            TestName::ToBeAtMost => "to_be_at_most"@,
            TestName::ToBeTrue => "to_be_true"@,
            TestName::ToBeFalse => "to_be_false"@,
            TestName::ToBeNull => "to_be_null"@,
            TestName::ToExist => "to_exist"@,
            TestName::ToBeUndefined => "to_be_undefined"@,
            TestName::ToBeObject => "to_be_object"@,
            TestName::ToBeArray => "to_be_array"@,
            TestName::ToBeString => "to_be_string"@,
            TestName::ToBeNumber => "to_be_number"@,
            TestName::ToBeBoolean => "to_be_boolean"@,
            TestName::ToContain => "to_contain"@,
            TestName::ToHaveLength => "to_have_length"@,
            TestName::ToBeEmpty => "to_be_empty"@,
            TestName::ToMatch => "to_match"@,
        }
    }

    /// Whether the test asks for nothing beside the value it is held against.
    pub fn takes_no_operand(&self) -> (r: bool)
        ensures
            r == self.is_unary(),
    {
        match self {
            TestName::ToBeTrue
            | TestName::ToBeFalse
            | TestName::ToBeNull
            | TestName::ToExist
            | TestName::ToBeUndefined
            | TestName::ToBeObject
            | TestName::ToBeArray
            | TestName::ToBeString
            | TestName::ToBeNumber
            | TestName::ToBeBoolean
            | TestName::ToBeEmpty => true,
            _ => false,
        }
    }

    /// The test's name.
    pub fn name(&self) -> (r: &'static str)
        ensures
            r@ == self.spelled(),
    {
        match self {
            TestName::ToEqual => "to_equal",
            TestName::ToBeAbove => "to_be_above",
            TestName::ToBeAtLeast => "to_be_at_least",
            TestName::ToBeBelow => "to_be_below",
            TestName::ToBeAtMost => "to_be_at_most",
            TestName::ToBeTrue => "to_be_true",
            TestName::ToBeFalse => "to_be_false",
            TestName::ToBeNull => "to_be_null",
            TestName::ToExist => "to_exist",
            TestName::ToBeUndefined => "to_be_undefined",
            TestName::ToBeObject => "to_be_object",
            TestName::ToBeArray => "to_be_array",
            TestName::ToBeString => "to_be_string",
            TestName::ToBeNumber => "to_be_number",
            TestName::ToBeBoolean => "to_be_boolean",
            TestName::ToContain => "to_contain",
            TestName::ToHaveLength => "to_have_length",
            TestName::ToBeEmpty => "to_be_empty",
            TestName::ToMatch => "to_match",
        }
    }

    /// The test that `name` names, if it names one.
    pub fn from_name(name: &String) -> (r: Option<TestName>)
        ensures
            r == test_named(name@),
    {
        if same_text(name, "to_equal") {
            Some(TestName::ToEqual)
        } else if same_text(name, "to_be_above") {
            Some(TestName::ToBeAbove)
        } else if same_text(name, "to_be_at_least") {
            Some(TestName::ToBeAtLeast)
        } else if same_text(name, "to_be_below") {
            Some(TestName::ToBeBelow)
        } else if same_text(name, "to_be_at_most") {
            Some(TestName::ToBeAtMost)
        } else if same_text(name, "to_be_true") {
            Some(TestName::ToBeTrue)
        } else if same_text(name, "to_be_false") {
            Some(TestName::ToBeFalse)
        } else if same_text(name, "to_be_null") {
            Some(TestName::ToBeNull)
        } else if same_text(name, "to_exist") {
            Some(TestName::ToExist)
        } else if same_text(name, "to_be_undefined") {
            Some(TestName::ToBeUndefined)
        } else if same_text(name, "to_be_object") {
            Some(TestName::ToBeObject)
        } else if same_text(name, "to_be_array") {
            Some(TestName::ToBeArray)
        } else if same_text(name, "to_be_string") {
            Some(TestName::ToBeString)
        } else if same_text(name, "to_be_number") {
            Some(TestName::ToBeNumber)
        } else if same_text(name, "to_be_boolean") {
            Some(TestName::ToBeBoolean)
        } else if same_text(name, "to_contain") {
            Some(TestName::ToContain)
        } else if same_text(name, "to_have_length") {
            Some(TestName::ToHaveLength)
        } else if same_text(name, "to_be_empty") {
            Some(TestName::ToBeEmpty)
        } else if same_text(name, "to_match") {
            Some(TestName::ToMatch)
        } else {
            None
        }
    }
}

/// The tests, found by name.
pub struct ValueAssertions {}

impl ValueAssertions {
    /// The test that `name` names; an unknown name is a fault of the definition.
    pub fn get(name: &str) -> (r: Result<TestName, ConfigError>)
        ensures
            match test_named(name@) {
                Some(t) => r == Ok::<TestName, ConfigError>(t),
                None => r == Err::<TestName, ConfigError>(ConfigError::UnknownTest),
            },
    {
        match TestName::from_name(&name.to_owned()) {
            Some(t) => Ok(t),
            None => Err(ConfigError::UnknownTest),
        }
    }
}

} // verus!
