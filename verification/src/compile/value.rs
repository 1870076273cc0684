//! Placeholders in a tree.
//!
//! Every string of the tree is compiled; what comes out is typed again: a text
//! that reads as null, as a boolean or as a number becomes that value, any other
//! text stays a string. Keys are left as they are, and so is everything that is
//! no string.

use crate::compile::string::{compile_string, expanded, valid_template};
use crate::error::ConfigError;
use crate::number::{is_decimal, parse_decimal};
use crate::text::chars_of;
use crate::value::{Json, Value, items_view, members_view, lemma_items_view, lemma_members_view};
use vstd::prelude::*;

verus! {

/// A compiled tree: the raw one and the masked one.
#[derive(Debug)]
pub struct CompiledValue {
    /// With the values that the paths found.
    pub raw: Value,
    /// With `****` in place of each masked value.
    pub masked: Value,
}

/// What `serde_yaml::from_str` makes of `text`, where it reads it as null, as a
/// boolean or as a number; `None` where it reads anything else or fails.
pub uninterp spec fn yaml_scalar(text: Seq<char>) -> Option<Json>;

/// Calls `serde_yaml::from_str` on `text`, for a `serde_json::Value`. A null, a
/// boolean or a number is handed on, the number in the form in which serde_json
/// writes it; anything else, and a failure, gives `None`. The result depends on
/// `text` alone; `yaml_scalar` names it.
#[verifier::external_body]
fn read_scalar(text: &str) -> (r: Option<Value>)
    ensures
        match yaml_scalar(text@) {
            Some(j) => r matches Some(v) && v@ == j,
            None => r is None,
        },
{
    match serde_yaml::from_str::<serde_json::Value>(text) {
        Ok(serde_json::Value::Null) => Some(Value::Null),
        Ok(serde_json::Value::Bool(b)) => Some(Value::Bool(b)),
        Ok(serde_json::Value::Number(n)) => Some(Value::Number(n.to_string())),
        _ => None,
    }
}

/// The value of a compiled text: what it was read as, where that is null, a
/// boolean or a number that is written as one; else the text as a string.
pub open spec fn retyped(text: Seq<char>, read: Option<Json>) -> Json {
    match read {
        Some(Json::Null) => Json::Null,
        Some(Json::Bool(b)) => Json::Bool(b),
        Some(Json::Number(n)) => if is_decimal(n) {
            Json::Number(n)
        } else {
            Json::String(text)
        },
        _ => Json::String(text),
    }
}

/// The value of the compiled text `text` that was read as `read`.
pub fn retype(text: String, read: Option<Value>) -> (r: Value)
    ensures
        r@ == retyped(
            text@,
            match read {
                Some(v) => Some(v@),
                None => None,
            },
        ),
        r@.wf(),
{
    match read {
        Some(Value::Null) => Value::Null,
        Some(Value::Bool(b)) => Value::Bool(b),
        Some(Value::Number(n)) => {
            let digits = chars_of(n.as_str());
            if parse_decimal(&digits).is_some() {
                Value::Number(n)
            } else {
                Value::String(text)
            }
        },
        _ => Value::String(text),
    }
}

/// Whether every string of the tree is a template.
pub open spec fn valid_tree(j: Json) -> bool
    decreases j,
{
    match j {
        Json::String(s) => valid_template(s),
        Json::Array(a) => forall|i: int| 0 <= i < a.len() ==> valid_tree(#[trigger] a[i]),
        Json::Object(m) => forall|i: int| 0 <= i < m.len() ==> valid_tree((#[trigger] m[i]).1),
        _ => true,
    }
}

/// The tree `j` with each string compiled against `ctx` and typed again.
pub open spec fn compiled(j: Json, ctx: Json, masked: bool) -> Json
    decreases j, 0nat,
{
    match j {
        Json::String(s) => retyped(
            expanded(s, ctx, masked),
            yaml_scalar(expanded(s, ctx, masked)),
        ),
        Json::Array(a) => Json::Array(compiled_items(a, ctx, masked, a.len())),
        Json::Object(m) => Json::Object(compiled_members(m, ctx, masked, m.len())),
        _ => j,
    }
}

/// The first `n` items of `a`, compiled.
pub open spec fn compiled_items(a: Seq<Json>, ctx: Json, masked: bool, n: nat) -> Seq<Json>
    decreases a, n,
{
    if n == 0 || n > a.len() {
        Seq::empty()
    } else {
        compiled_items(a, ctx, masked, (n - 1) as nat).push(compiled(a[n - 1], ctx, masked))
    }
}

/// The first `n` members of `m`, their values compiled.
pub open spec fn compiled_members(
    m: Seq<(Seq<char>, Json)>,
    ctx: Json,
    masked: bool,
    n: nat,
) -> Seq<(Seq<char>, Json)>
    decreases m, n,
{
    if n == 0 || n > m.len() {
        Seq::empty()
    } else {
        compiled_members(m, ctx, masked, (n - 1) as nat).push(
            (m[n - 1].0, compiled(m[n - 1].1, ctx, masked)),
        )
    }
}

/// Compiled items are as many as the items, each the compiled item.
pub proof fn lemma_compiled_items(a: Seq<Json>, ctx: Json, masked: bool, n: nat)
    requires
        n <= a.len(),
    ensures
        compiled_items(a, ctx, masked, n).len() == n,
        forall|i: int|
            0 <= i < n ==> #[trigger] compiled_items(a, ctx, masked, n)[i] == compiled(
                a[i],
                ctx,
                masked,
            ),
    decreases n,
{
    if n > 0 {
        lemma_compiled_items(a, ctx, masked, (n - 1) as nat);
    }
}

/// Compiled members are as many as the members, each with its key and its
/// compiled value.
pub proof fn lemma_compiled_members(m: Seq<(Seq<char>, Json)>, ctx: Json, masked: bool, n: nat)
    requires
        n <= m.len(),
    ensures
        compiled_members(m, ctx, masked, n).len() == n,
        forall|i: int|
            0 <= i < n ==> #[trigger] compiled_members(m, ctx, masked, n)[i] == (
                m[i].0,
                compiled(m[i].1, ctx, masked),
            ),
    decreases n,
{
    if n > 0 {
        lemma_compiled_members(m, ctx, masked, (n - 1) as nat);
    }
}

/// One track of a compiled tree.
fn deep_keys(value: &Value, data: &Value, masked: bool) -> (r: Result<Value, ConfigError>)
    ensures
        valid_tree(value@) ==> (r matches Ok(v) && v@ == compiled(value@, data@, masked)),
        !valid_tree(value@) ==> r == Err::<Value, ConfigError>(ConfigError::InvalidTemplate),
    decreases value,
{
    match value {
        Value::String(s) => {
            match compile_string(s.as_str(), data) {
                Err(e) => Err(e),
                Ok(c) => {
                    let text = if masked {
                        c.masked
                    } else {
                        c.raw
                    };
                    let read = read_scalar(text.as_str());
                    Ok(retype(text, read))
                },
            }
        },
        Value::Array(a) => {
            let ghost items = items_view(a@);
            proof {
                lemma_items_view(a@);
            }
            let mut out: Vec<Value> = Vec::new();
            let mut i: usize = 0;
            while i < a.len()
                invariant
                    i <= a.len(),
                    *value == Value::Array(*a),
                    items == items_view(a@),
                    items.len() == a.len(),
                    forall|k: int| 0 <= k < a.len() ==> #[trigger] items[k] == a@[k]@,
                    forall|k: int| 0 <= k < i ==> valid_tree(#[trigger] items[k]),
                    out@.len() == i,
                    forall|k: int|
                        0 <= k < i ==> (#[trigger] out@[k])@ == compiled(items[k], data@, masked),
                decreases a.len() - i,
            {
                proof {
                    assert(decreases_to!(*value => value->Array_0));
                    assert(decreases_to!(*a => a@));
                    assert(decreases_to!(a@ => a@[i as int]));
                }
                match deep_keys(&a[i], data, masked) {
                    Err(e) => {
                        assert(!valid_tree(items[i as int]));
                        return Err(e);
                    },
                    Ok(v) => {
                        out.push(v);
                    },
                }
                i += 1;
            }
            proof {
                lemma_items_view(out@);
                lemma_compiled_items(items, data@, masked, items.len());
                assert(items_view(out@) =~= compiled_items(items, data@, masked, items.len()));
            }
            Ok(Value::Array(out))
        },
        Value::Object(m) => {
            let ghost members = members_view(m@);
            proof {
                lemma_members_view(m@);
            }
            let mut out: Vec<(String, Value)> = Vec::new();
            let mut i: usize = 0;
            while i < m.len()
                invariant
                    i <= m.len(),
                    *value == Value::Object(*m),
                    members == members_view(m@),
                    members.len() == m.len(),
                    forall|k: int|
                        0 <= k < m.len() ==> #[trigger] members[k] == (m@[k].0@, m@[k].1@),
                    forall|k: int| 0 <= k < i ==> valid_tree((#[trigger] members[k]).1),
                    out@.len() == i,
                    forall|k: int|
                        0 <= k < i ==> (#[trigger] out@[k]).0@ == members[k].0 && out@[k].1@
                            == compiled(members[k].1, data@, masked),
                decreases m.len() - i,
            {
                proof {
                    assert(decreases_to!(*value => value->Object_0));
                    assert(decreases_to!(*m => m@));
                    assert(decreases_to!(m@ => m@[i as int]));
                    assert(decreases_to!(m@[i as int] => m@[i as int].1));
                }
                match deep_keys(&m[i].1, data, masked) {
                    Err(e) => {
                        assert(!valid_tree(members[i as int].1));
                        return Err(e);
                    },
                    Ok(v) => {
                        out.push((m[i].0.clone(), v));
                    },
                }
                i += 1;
            }
            proof {
                lemma_members_view(out@);
                lemma_compiled_members(members, data@, masked, members.len());
                assert(members_view(out@) =~= compiled_members(
                    members,
                    data@,
                    masked,
                    members.len(),
                ));
            }
            Ok(Value::Object(out))
        },
        _ => Ok(value.clone()),
    }
}

/// Whether `r` is what compiling `tree` against `ctx` gives: null on both
/// tracks for no tree, the compiled tree on each track for a tree whose strings
/// are templates, and a fault for any other tree.
pub open spec fn compiles_to(
    r: Result<CompiledValue, ConfigError>,
    tree: Option<Json>,
    ctx: Json,
) -> bool {
    match tree {
        None => r matches Ok(c) && c.raw@ == Json::Null && c.masked@ == Json::Null,
        Some(t) => if valid_tree(t) {
            r matches Ok(c) && c.raw@ == compiled(t, ctx, false) && c.masked@ == compiled(
                t,
                ctx,
                true,
            )
        } else {
            r matches Err(e) && e == ConfigError::InvalidTemplate
        },
    }
}

/// Compiles a tree on both tracks; no tree gives null on both.
pub fn compile_value(value: Option<Value>, data: &Value) -> (r: Result<
    CompiledValue,
    ConfigError,
>)
    ensures
        compiles_to(
            r,
            match value {
                Some(v) => Some(v@),
                None => None,
            },
            data@,
        ),
{
    match value {
        None => Ok(CompiledValue { raw: Value::Null, masked: Value::Null }),
        Some(v) => {
            match deep_keys(&v, data, false) {
                Err(e) => Err(e),
                Ok(raw) => match deep_keys(&v, data, true) {
                    Err(e) => Err(e),
                    Ok(masked) => Ok(CompiledValue { raw, masked }),
                },
            }
        },
    }
}

} // verus!
