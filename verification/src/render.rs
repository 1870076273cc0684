//! The written form of a tree: compact JSON, and the string form that
//! templates and messages use.

use crate::value::{Json, Value, items_view, members_view, lemma_items_view, lemma_members_view};
use vstd::prelude::*;
use vstd::string::StringExecFns;

verus! {

/// The JSON string literal for `text`, as serde_json writes it: the text between
/// double quotes, with the escapes that JSON asks for.
pub uninterp spec fn json_quoted(text: Seq<char>) -> Seq<char>;

/// Calls the `Display` of `serde_json::Value` on the string `text`. The result
/// depends on `text` alone; `json_quoted` names it.
#[verifier::external_body]
fn quote(text: &str) -> (r: String)
    ensures
        r@ == json_quoted(text@),
{
    serde_json::Value::String(text.to_owned()).to_string()
}

/// The compact JSON text of `j`: no blanks, the members of an object in the order
/// in which it holds them.
pub open spec fn rendered(j: Json) -> Seq<char>
    decreases j, 0nat,
{
    match j {
        Json::Null => "null"@,
        Json::Bool(b) => if b {
            "true"@
        } else {
            "false"@
        },
        Json::Number(t) => t,
        Json::String(s) => json_quoted(s),
        Json::Array(a) => "["@ + rendered_items(a, a.len()) + "]"@,
        Json::Object(m) => "{"@ + rendered_members(m, m.len()) + "}"@,
    }
}

/// The texts of the first `n` items of `a`, with commas between them.
pub open spec fn rendered_items(a: Seq<Json>, n: nat) -> Seq<char>
    decreases a, n,
{
    if n == 0 || n > a.len() {
        Seq::empty()
    } else if n == 1 {
        rendered(a[0])
    } else {
        rendered_items(a, (n - 1) as nat) + ","@ + rendered(a[n - 1])
    }
}

/// The texts of the first `n` members of `m`, each a quoted key, a colon and the
/// value's text, with commas between them.
pub open spec fn rendered_members(m: Seq<(Seq<char>, Json)>, n: nat) -> Seq<char>
    decreases m, n,
{
    if n == 0 || n > m.len() {
        Seq::empty()
    } else if n == 1 {
        json_quoted(m[0].0) + ":"@ + rendered(m[0].1)
    } else {
        rendered_members(m, (n - 1) as nat) + ","@ + json_quoted(m[n - 1].0) + ":"@ + rendered(
            m[n - 1].1,
        )
    }
}

/// The string form of `j`: a string as it is, anything else as its JSON text.
pub open spec fn string_form(j: Json) -> Seq<char> {
    match j {
        Json::String(s) => s,
        _ => rendered(j),
    }
}

/// The compact JSON text of `v`.
pub fn render(v: &Value) -> (out: String)
    ensures
        out@ == rendered(v@),
    decreases v,
{
    match v {
        Value::Null => "null".to_owned(),
        Value::Bool(b) => if *b {
            "true".to_owned()
        } else {
            "false".to_owned()
        },
        Value::Number(t) => t.clone(),
        Value::String(s) => quote(s.as_str()),
        Value::Array(a) => {
            let ghost items = items_view(a@);
            let mut out = "[".to_owned();
            let mut i: usize = 0;
            proof {
                lemma_items_view(a@);
                assert(out@ =~= "["@ + rendered_items(items, 0));
            }
            while i < a.len()
                invariant
                    i <= a.len(),
                    *v == Value::Array(*a),
                    items == items_view(a@),
                    items.len() == a.len(),
                    forall|k: int| 0 <= k < a.len() ==> #[trigger] items[k] == a@[k]@,
                    out@ == "["@ + rendered_items(items, i as nat),
                decreases a.len() - i,
            {
                proof {
                    assert(decreases_to!(*v => v->Array_0));
                    assert(decreases_to!(*a => a@));
                    assert(decreases_to!(a@ => a@[i as int]));
                }
                let ghost before = out@;
                if i > 0 {
                    out.append(",");
                }
                let item = render(&a[i]);
                out.append(item.as_str());
                proof {
                    if i == 0 {
                        assert(before =~= "["@);
                        assert(out@ =~= "["@ + rendered(items[0]));
                    } else {
                        assert(out@ =~= "["@ + (rendered_items(items, i as nat) + ","@ + rendered(
                            items[i as int],
                        )));
                    }
                }
                i += 1;
            }
            out.append("]");
            out
        },
        Value::Object(m) => {
            let ghost members = members_view(m@);
            let mut out = "{".to_owned();
            let mut i: usize = 0;
            proof {
                lemma_members_view(m@);
                assert(out@ =~= "{"@ + rendered_members(members, 0));
            }
            while i < m.len()
                invariant
                    i <= m.len(),
                    *v == Value::Object(*m),
                    members == members_view(m@),
                    members.len() == m.len(),
                    forall|k: int|
                        0 <= k < m.len() ==> #[trigger] members[k] == (m@[k].0@, m@[k].1@),
                    out@ == "{"@ + rendered_members(members, i as nat),
                decreases m.len() - i,
            {
                proof {
                    assert(decreases_to!(*v => v->Object_0));
                    assert(decreases_to!(*m => m@));
                    assert(decreases_to!(m@ => m@[i as int]));
                    assert(decreases_to!(m@[i as int] => m@[i as int].1));
                }
                let ghost before = out@;
                if i > 0 {
                    out.append(",");
                }
                let key = quote(m[i].0.as_str());
                out.append(key.as_str());
                out.append(":");
                let item = render(&m[i].1);
                out.append(item.as_str());
                proof {
                    if i == 0 {
                        assert(before =~= "{"@);
                        assert(out@ =~= "{"@ + (json_quoted(members[0].0) + ":"@ + rendered(
                            members[0].1,
                        )));
                    } else {
                        assert(out@ =~= "{"@ + (rendered_members(members, i as nat) + ","@
                            + json_quoted(members[i as int].0) + ":"@ + rendered(
                            members[i as int].1,
                        )));
                    }
                }
                i += 1;
            }
            out.append("}");
            out
        },
    }
}

/// The string form of `v`: a string as it is, anything else as its JSON text.
pub fn string_of_value(v: &Value) -> (out: String)
    ensures
        out@ == string_form(v@),
{
    match v {
        Value::String(s) => s.clone(),
        _ => render(v),
    }
}

} // verus!
