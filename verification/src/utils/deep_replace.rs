//! Masking by key: in what is reported of a response, the values under the
//! keys that the step names are replaced by `****`.

use crate::text::texts;
use crate::value::{Json, Value, items_view, members_view, lemma_items_view, lemma_members_view};
use vstd::prelude::*;

verus! {

/// The value of a member in the masked tree: an array or an object is walked
/// through, whatever its key; any other value is replaced where its key is among
/// `mask`.
pub open spec fn replaced_member(key: Seq<char>, value: Json, mask: Seq<Seq<char>>) -> Json
    decreases value, 1nat,
{
    if value.is_container() {
        replaced(value, mask)
    } else if mask.contains(key) {
        Json::String("****"@)
    } else {
        value
    }
}

/// The tree `j` with every value that is no array or object, and stands under
/// a key of `mask`, replaced by `****`.
pub open spec fn replaced(j: Json, mask: Seq<Seq<char>>) -> Json
    decreases j, 0nat,
{
    match j {
        Json::Object(m) => Json::Object(replaced_members(m, mask, m.len())),
        Json::Array(a) => Json::Array(replaced_items(a, mask, a.len())),
        _ => j,
    }
}

/// The first `n` items of `a`, masked.
pub open spec fn replaced_items(a: Seq<Json>, mask: Seq<Seq<char>>, n: nat) -> Seq<Json>
    decreases a, n,
{
    if n == 0 || n > a.len() {
        Seq::empty()
    } else {
        replaced_items(a, mask, (n - 1) as nat).push(replaced(a[n - 1], mask))
    }
}

/// The first `n` members of `m`, masked.
pub open spec fn replaced_members(m: Seq<(Seq<char>, Json)>, mask: Seq<Seq<char>>, n: nat) -> Seq<
    (Seq<char>, Json),
>
    decreases m, n,
{
    if n == 0 || n > m.len() {
        Seq::empty()
    } else {
        replaced_members(m, mask, (n - 1) as nat).push(
            (m[n - 1].0, replaced_member(m[n - 1].0, m[n - 1].1, mask)),
        )
    }
}

/// Masked items are as many as the items, each the masked item.
pub proof fn lemma_replaced_items(a: Seq<Json>, mask: Seq<Seq<char>>, n: nat)
    requires
        n <= a.len(),
    ensures
        replaced_items(a, mask, n).len() == n,
        forall|i: int|
            0 <= i < n ==> #[trigger] replaced_items(a, mask, n)[i] == replaced(a[i], mask),
    decreases n,
{
    if n > 0 {
        lemma_replaced_items(a, mask, (n - 1) as nat);
    }
}

/// Masked members are as many as the members, each with its key and its masked
/// value.
pub proof fn lemma_replaced_members(m: Seq<(Seq<char>, Json)>, mask: Seq<Seq<char>>, n: nat)
    requires
        n <= m.len(),
    ensures
        replaced_members(m, mask, n).len() == n,
        forall|i: int|
            0 <= i < n ==> #[trigger] replaced_members(m, mask, n)[i] == (
                m[i].0,
                replaced_member(m[i].0, m[i].1, mask),
            ),
    decreases n,
{
    if n > 0 {
        lemma_replaced_members(m, mask, (n - 1) as nat);
    }
}

/// Whether `key` is among `mask`.
fn is_masked_key(mask: &Vec<String>, key: &String) -> (r: bool)
    ensures
        r == texts(mask@).contains(key@),
{
    let mut i: usize = 0;
    while i < mask.len()
        invariant
            i <= mask.len(),
            forall|k: int| 0 <= k < i ==> texts(mask@)[k] != key@,
        decreases mask.len() - i,
    {
        if mask[i] == *key {
            assert(texts(mask@)[i as int] == key@);
            return true;
        }
        i += 1;
    }
    false
}

/// Walks through a tree and masks the value of each member whose key is among
/// `mask`.
pub fn deep_replace(value: &Value, mask: &Vec<String>) -> (r: Value)
    ensures
        r@ == replaced(value@, texts(mask@)),
    decreases value,
{
    match value {
        Value::Object(m) => {
            let ghost members = members_view(m@);
            proof {
                lemma_members_view(m@);
            }
            let mut out: Vec<(String, Value)> = Vec::new();
            let mut i: usize = 0;
            while i < m.len()
                invariant
                    i <= m.len(),
                    *value == Value::Object(*m),
                    members == members_view(m@),
                    members.len() == m.len(),
                    forall|k: int|
                        0 <= k < m.len() ==> #[trigger] members[k] == (m@[k].0@, m@[k].1@),
                    out@.len() == i,
                    forall|k: int|
                        0 <= k < i ==> (#[trigger] out@[k]).0@ == members[k].0 && out@[k].1@
                            == replaced_member(members[k].0, members[k].1, texts(mask@)),
                decreases m.len() - i,
            {
                proof {
                    assert(decreases_to!(*value => value->Object_0));
                    assert(decreases_to!(*m => m@));
                    assert(decreases_to!(m@ => m@[i as int]));
                    assert(decreases_to!(m@[i as int] => m@[i as int].1));
                }
                let is_container = match &m[i].1 {
                    Value::Object(_) => true,
                    Value::Array(_) => true,
                    _ => false,
                };
                let v = if is_container {
                    deep_replace(&m[i].1, mask)
                } else if is_masked_key(mask, &m[i].0) {
                    Value::String("****".to_owned())
                } else {
                    m[i].1.clone()
                };
                out.push((m[i].0.clone(), v));
                i += 1;
            }
            proof {
                lemma_members_view(out@);
                lemma_replaced_members(members, texts(mask@), members.len());
                assert(members_view(out@) =~= replaced_members(
                    members,
                    texts(mask@),
                    members.len(),
                ));
            }
            Value::Object(out)
        },
        Value::Array(a) => {
            let ghost items = items_view(a@);
            proof {
                lemma_items_view(a@);
            }
            let mut out: Vec<Value> = Vec::new();
            let mut i: usize = 0;
            while i < a.len()
                invariant
                    i <= a.len(),
                    *value == Value::Array(*a),
                    items == items_view(a@),
                    items.len() == a.len(),
                    forall|k: int| 0 <= k < a.len() ==> #[trigger] items[k] == a@[k]@,
                    out@.len() == i,
                    forall|k: int|
                        0 <= k < i ==> (#[trigger] out@[k])@ == replaced(items[k], texts(mask@)),
                decreases a.len() - i,
            {
                proof {
                    assert(decreases_to!(*value => value->Array_0));
                    assert(decreases_to!(*a => a@));
                    assert(decreases_to!(a@ => a@[i as int]));
                }
                out.push(deep_replace(&a[i], mask));
                i += 1;
            }
            proof {
                lemma_items_view(out@);
                lemma_replaced_items(items, texts(mask@), items.len());
                assert(items_view(out@) =~= replaced_items(items, texts(mask@), items.len()));
            }
            Value::Array(out)
        },
        _ => value.clone(),
    }
}

/// With nothing to mask the tree stays as it is.
pub proof fn law_nothing_masked(j: Json)
    ensures
        replaced(j, Seq::empty()) == j,
    decreases j,
{
    let mask = Seq::<Seq<char>>::empty();
    match j {
        Json::Object(m) => {
            lemma_replaced_members(m, mask, m.len());
            assert forall|i: int| 0 <= i < m.len() implies replaced_member(
                (#[trigger] m[i]).0,
                m[i].1,
                mask,
            ) == m[i].1 by {
                if m[i].1.is_container() {
                    law_nothing_masked(m[i].1);
                }
            }
            assert(replaced_members(m, mask, m.len()) =~= m);
        },
        Json::Array(a) => {
            lemma_replaced_items(a, mask, a.len());
            assert forall|i: int| 0 <= i < a.len() implies replaced(#[trigger] a[i], mask)
                == a[i] by {
                law_nothing_masked(a[i]);
            }
            assert(replaced_items(a, mask, a.len()) =~= a);
        },
        _ => {},
    }
}

/// In a masked object every member keeps its key; a value under a masked key
/// that is neither an array nor an object is `****`.
pub proof fn law_masked_members(m: Seq<(Seq<char>, Json)>, mask: Seq<Seq<char>>, i: int)
    requires
        0 <= i < m.len(),
    ensures
        replaced(Json::Object(m), mask) matches Json::Object(r) && r.len() == m.len() && r[i].0
            == m[i].0 && (mask.contains(m[i].0) && !m[i].1.is_container() ==> r[i].1
            == Json::String("****"@)),
{
    lemma_replaced_members(m, mask, m.len());
}

} // verus!
