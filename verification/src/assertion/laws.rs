//! What holds of every check.

use crate::assertion::assertions::outcome;
use crate::assertion::check::{evaluated, parsed};
use crate::assertion::utils::number_of;
use crate::assertion::value_assertions::TestName;
use crate::value::Json;
use vstd::prelude::*;

verus! {

/// Whether the test fails on `a` and `b` whether it is inverted or not: a
/// comparison of what is no number, a length of what has none or against what
/// is no number, the emptiness of what holds nothing by its kind.
pub open spec fn fails_either_way(test: TestName, a: Json, b: Json) -> bool {
    match test {
        TestName::ToBeAbove
        | TestName::ToBeAtLeast
        | TestName::ToBeBelow
        | TestName::ToBeAtMost => number_of(a) is None || number_of(b) is None,
        TestName::ToHaveLength => number_of(b) is None || !(a is Array || a is String),
        TestName::ToBeEmpty => !(a is Array || a is String || a is Object),
        _ => false,
    }
}

/// An inverted check passes where the plain check fails, and fails where it
/// passes; but a check that fails by the kind of its values fails either way.
pub proof fn law_inversion(test: TestName, a: Json, b: Json, found: bool)
    ensures
        fails_either_way(test, a, b) ==> outcome(test, a, b, false, found) is Some && outcome(
            test,
            a,
            b,
            true,
            found,
        ) is Some,
        !fails_either_way(test, a, b) ==> (outcome(test, a, b, true, found) is None) == !(outcome(
            test,
            a,
            b,
            false,
            found,
        ) is None),
{
}

/// Whether a check passes does not depend on its masked text.
pub proof fn law_masking_keeps_the_verdict(
    raw: Seq<char>,
    masked: Seq<char>,
    not: bool,
    data: Json,
)
    ensures
        evaluated(raw, masked, not, data).passed == evaluated(raw, raw, not, data).passed,
{
}

/// The result of a check with a masked value shows the masked text only: the
/// check that is echoed is read from the masked text, and the message is the
/// same fixed sentence whether the check passed or failed.
pub proof fn law_masked_check_is_hidden(raw: Seq<char>, masked: Seq<char>, not: bool, data: Json)
    requires
        raw != masked,
    ensures
        evaluated(raw, masked, not, data).message == Some("Hidden because of mask"@),
        evaluated(raw, masked, not, data).assertion == parsed(masked, not)->Some_0,
{
}

/// What the result of a masked check shows does not depend on the raw text or
/// on the data: two masked checks with the same masked text show the same.
pub proof fn law_masked_result_reveals_nothing(
    raw1: Seq<char>,
    raw2: Seq<char>,
    masked: Seq<char>,
    not: bool,
    data1: Json,
    data2: Json,
)
    requires
        raw1 != masked,
        raw2 != masked,
    ensures
        evaluated(raw1, masked, not, data1).message == evaluated(raw2, masked, not, data2).message,
        evaluated(raw1, masked, not, data1).assertion == evaluated(
            raw2,
            masked,
            not,
            data2,
        ).assertion,
{
}

} // verus!
