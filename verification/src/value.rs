//! The tree of data that templates and assertions read: null, booleans,
//! numbers, strings, arrays and objects.
//!
//! `Value` is what runs; `Json`, its view, is what the contracts speak of. A
//! number holds its written form. An object holds its members in a sequence,
//! found by the first key that matches and kept in the order of their keys by
//! `put`.

use crate::number::{is_decimal, parse_decimal};
use crate::text::{chars_of, less, text_less, lemma_text_less_total, lemma_text_less_transitive};
use vstd::prelude::*;

verus! {

/// A tree of data, as the contracts see it.
pub enum Json {
    /// Nothing.
    Null,
    /// A boolean.
    Bool(bool),
    /// A number, in its written form.
    Number(Seq<char>),
    /// A string.
    String(Seq<char>),
    /// Values in a row.
    Array(Seq<Json>),
    /// Values under keys.
    Object(Seq<(Seq<char>, Json)>),
}

/// A tree of data.
#[derive(Debug, PartialEq)]
pub enum Value {
    /// Nothing.
    Null,
    /// A boolean.
    Bool(bool),
    /// A number, in its written form.
    Number(String),
    /// A string.
    String(String),
    /// Values in a row.
    Array(Vec<Value>),
    /// Values under keys.
    Object(Vec<(String, Value)>),
}

/// The view of a value.
pub open spec fn json_of(v: Value) -> Json
    decreases v, 0nat,
{
    match v {
        Value::Null => Json::Null,
        Value::Bool(b) => Json::Bool(b),
        Value::Number(t) => Json::Number(t@),
        Value::String(s) => Json::String(s@),
        Value::Array(a) => Json::Array(jsons_of(a@, a@.len())),
        Value::Object(m) => Json::Object(members_of(m@, m@.len())),
    }
}

/// The views of the first `n` of the values `a`.
pub open spec fn jsons_of(a: Seq<Value>, n: nat) -> Seq<Json>
    decreases a, n,
{
    if n == 0 || n > a.len() {
        Seq::empty()
    } else {
        jsons_of(a, (n - 1) as nat).push(json_of(a[n - 1]))
    }
}

/// The first `n` of the members `m`: their keys, with the views of their values.
pub open spec fn members_of(m: Seq<(String, Value)>, n: nat) -> Seq<(Seq<char>, Json)>
    decreases m, n,
{
    if n == 0 || n > m.len() {
        Seq::empty()
    } else {
        members_of(m, (n - 1) as nat).push((m[n - 1].0@, json_of(m[n - 1].1)))
    }
}

impl View for Value {
    type V = Json;

    open spec fn view(&self) -> Json {
        json_of(*self)
    }
}

/// The views of values in a row.
pub open spec fn items_view(a: Seq<Value>) -> Seq<Json> {
    jsons_of(a, a.len())
}

/// The views of keys and their values.
pub open spec fn members_view(m: Seq<(String, Value)>) -> Seq<(Seq<char>, Json)> {
    members_of(m, m.len())
}

proof fn lemma_jsons_of(a: Seq<Value>, n: nat)
    requires
        n <= a.len(),
    ensures
        jsons_of(a, n).len() == n,
        forall|i: int| 0 <= i < n ==> #[trigger] jsons_of(a, n)[i] == a[i]@,
    decreases n,
{
    if n > 0 {
        lemma_jsons_of(a, (n - 1) as nat);
    }
}

proof fn lemma_members_of(m: Seq<(String, Value)>, n: nat)
    requires
        n <= m.len(),
    ensures
        members_of(m, n).len() == n,
        forall|i: int| 0 <= i < n ==> #[trigger] members_of(m, n)[i] == (m[i].0@, m[i].1@),
    decreases n,
{
    if n > 0 {
        lemma_members_of(m, (n - 1) as nat);
    }
}

/// The views of values in a row are as many, each the view of its value.
pub proof fn lemma_items_view(a: Seq<Value>)
    ensures
        items_view(a).len() == a.len(),
        forall|i: int| 0 <= i < a.len() ==> #[trigger] items_view(a)[i] == a[i]@,
{
    lemma_jsons_of(a, a.len());
}

/// The views of members are as many, each a key with the view of its value.
pub proof fn lemma_members_view(m: Seq<(String, Value)>)
    ensures
        members_view(m).len() == m.len(),
        forall|i: int| 0 <= i < m.len() ==> #[trigger] members_view(m)[i] == (m[i].0@, m[i].1@),
{
    lemma_members_of(m, m.len());
}

/// Whether the keys of `m` stand in rising order, so that none occurs twice.
pub open spec fn keys_rise(m: Seq<(Seq<char>, Json)>) -> bool {
    forall|i: int, j: int| 0 <= i < j < m.len() ==> text_less(#[trigger] m[i].0, #[trigger] m[j].0)
}

impl Json {
    /// Whether every number in the tree is written as a number and the keys of
    /// every object stand in rising order.
    pub open spec fn wf(self) -> bool
        decreases self,
    {
        match self {
            Json::Number(t) => is_decimal(t),
            Json::Array(a) => forall|i: int| 0 <= i < a.len() ==> (#[trigger] a[i]).wf(),
            Json::Object(m) => keys_rise(m) && forall|i: int|
                0 <= i < m.len() ==> (#[trigger] m[i]).1.wf(),
            _ => true,
        }
    }

    /// Whether the value is an array or an object.
    pub open spec fn is_container(self) -> bool {
        self is Array || self is Object
    }
}

/// The value under the first key of `m` that is `key`.
pub open spec fn member(m: Seq<(Seq<char>, Json)>, key: Seq<char>) -> Option<Json>
    decreases m.len(),
{
    if m.len() == 0 {
        None
    } else if m[0].0 == key {
        Some(m[0].1)
    } else {
        member(m.drop_first(), key)
    }
}

/// `m` with `value` under `key`: in place of the first member that has this
/// key, else in front of the first member whose key comes after `key`, else at
/// the end.
pub open spec fn with_member(m: Seq<(Seq<char>, Json)>, key: Seq<char>, value: Json) -> Seq<
    (Seq<char>, Json),
>
    decreases m.len(),
{
    if m.len() == 0 {
        seq![(key, value)]
    } else if m[0].0 == key {
        seq![(key, value)] + m.drop_first()
    } else if text_less(key, m[0].0) {
        seq![(key, value)] + m
    } else {
        seq![m[0]] + with_member(m.drop_first(), key, value)
    }
}

/// `j` with `value` under `key`, where `j` is an object; an object of this one
/// member, where it is anything else.
pub open spec fn put(j: Json, key: Seq<char>, value: Json) -> Json {
    match j {
        Json::Object(m) => Json::Object(with_member(m, key, value)),
        _ => Json::Object(seq![(key, value)]),
    }
}

/// What was put under a key is found there, and what stood under another key
/// still stands there.
pub proof fn lemma_member_of_with_member(
    m: Seq<(Seq<char>, Json)>,
    key: Seq<char>,
    value: Json,
    other: Seq<char>,
)
    ensures
        member(with_member(m, key, value), key) == Some(value),
        other != key ==> member(with_member(m, key, value), other) == member(m, other),
    decreases m.len(),
{
    let r = with_member(m, key, value);
    if m.len() == 0 {
        assert(r.drop_first() =~= m);
    } else if m[0].0 == key {
        assert(r.drop_first() =~= m.drop_first());
    } else if text_less(key, m[0].0) {
        assert(r.drop_first() =~= m);
    } else {
        lemma_member_of_with_member(m.drop_first(), key, value, other);
        assert(r.drop_first() =~= with_member(m.drop_first(), key, value));
    }
}

/// Each member of `with_member(m, ..)` is the new one or a member of `m`, and
/// the new one is among them.
proof fn lemma_with_member_holds(m: Seq<(Seq<char>, Json)>, key: Seq<char>, value: Json)
    ensures
        forall|i: int|
            0 <= i < with_member(m, key, value).len() ==> (#[trigger] with_member(m, key, value)[i]
                == (key, value) || exists|j: int|
                0 <= j < m.len() && m[j] == with_member(m, key, value)[i]),
        with_member(m, key, value).len() > 0,
    decreases m.len(),
{
    let r = with_member(m, key, value);
    if m.len() == 0 {
    } else if m[0].0 == key {
        assert forall|i: int| 0 <= i < r.len() implies (#[trigger] r[i] == (key, value)
            || exists|j: int| 0 <= j < m.len() && m[j] == r[i]) by {
            if i > 0 {
                assert(m[i] == r[i]);
            }
        }
    } else if text_less(key, m[0].0) {
        assert forall|i: int| 0 <= i < r.len() implies (#[trigger] r[i] == (key, value)
            || exists|j: int| 0 <= j < m.len() && m[j] == r[i]) by {
            if i > 0 {
                assert(m[i - 1] == r[i]);
            }
        }
    } else {
        let rest = m.drop_first();
        let inner = with_member(rest, key, value);
        lemma_with_member_holds(rest, key, value);
        assert forall|i: int| 0 <= i < r.len() implies (#[trigger] r[i] == (key, value)
            || exists|j: int| 0 <= j < m.len() && m[j] == r[i]) by {
            if i == 0 {
                assert(m[0] == r[0]);
            } else {
                assert(r[i] == inner[i - 1]);
                if inner[i - 1] != (key, value) {
                    let j = choose|j: int| 0 <= j < rest.len() && rest[j] == inner[i - 1];
                    assert(m[j + 1] == r[i]);
                }
            }
        }
    }
}

/// Keys that rise still rise when a member is put among them.
pub proof fn lemma_with_member_keys_rise(m: Seq<(Seq<char>, Json)>, key: Seq<char>, value: Json)
    requires
        keys_rise(m),
    ensures
        keys_rise(with_member(m, key, value)),
    decreases m.len(),
{
    let r = with_member(m, key, value);
    if m.len() == 0 {
    } else if m[0].0 == key {
        assert forall|i: int, j: int| 0 <= i < j < r.len() implies text_less(
            #[trigger] r[i].0,
            #[trigger] r[j].0,
        ) by {
            assert(r[j] == m[j]);
            if i > 0 {
                assert(r[i] == m[i]);
            } else {
                assert(text_less(m[0].0, m[j].0));
            }
        }
    } else if text_less(key, m[0].0) {
        assert forall|i: int, j: int| 0 <= i < j < r.len() implies text_less(
            #[trigger] r[i].0,
            #[trigger] r[j].0,
        ) by {
            assert(r[j] == m[j - 1]);
            if i > 0 {
                assert(r[i] == m[i - 1]);
            } else if j > 1 {
                assert(text_less(m[0].0, m[j - 1].0));
                lemma_text_less_transitive(key, m[0].0, m[j - 1].0);
            }
        }
    } else {
        let rest = m.drop_first();
        let inner = with_member(rest, key, value);
        assert(keys_rise(rest)) by {
            assert forall|i: int, j: int| 0 <= i < j < rest.len() implies text_less(
                #[trigger] rest[i].0,
                #[trigger] rest[j].0,
            ) by {
                assert(text_less(m[i + 1].0, m[j + 1].0));
            }
        }
        lemma_with_member_keys_rise(rest, key, value);
        lemma_with_member_holds(rest, key, value);
        lemma_text_less_total(key, m[0].0);
        assert forall|i: int, j: int| 0 <= i < j < r.len() implies text_less(
            #[trigger] r[i].0,
            #[trigger] r[j].0,
        ) by {
            assert(r[j] == inner[j - 1]);
            if i > 0 {
                assert(r[i] == inner[i - 1]);
                assert(text_less(inner[i - 1].0, inner[j - 1].0));
            } else {
                assert(r[0] == m[0]);
                if inner[j - 1] != (key, value) {
                    let k = choose|k: int| 0 <= k < rest.len() && rest[k] == inner[j - 1];
                    assert(text_less(m[0].0, m[k + 1].0));
                }
            }
        }
    }
}

/// A well-formed object is still well-formed when a well-formed value is put in it.
pub proof fn law_put_keeps_well_formed(j: Json, key: Seq<char>, value: Json)
    requires
        j.wf(),
        value.wf(),
    ensures
        put(j, key, value).wf(),
{
    match j {
        Json::Object(m) => {
            let r = with_member(m, key, value);
            lemma_with_member_keys_rise(m, key, value);
            lemma_with_member_holds(m, key, value);
            assert forall|i: int| 0 <= i < r.len() implies (#[trigger] r[i]).1.wf() by {
                if r[i] != (key, value) {
                    let k = choose|k: int| 0 <= k < m.len() && m[k] == r[i];
                    assert(m[k].1.wf());
                }
            }
        },
        _ => {},
    }
}

/// Putting a member behind `i` members that neither have its key nor come after
/// it leaves these in place.
proof fn lemma_with_member_behind(m: Seq<(Seq<char>, Json)>, key: Seq<char>, value: Json, i: int)
    requires
        0 <= i <= m.len(),
        forall|k: int| 0 <= k < i ==> (#[trigger] m[k]).0 != key && !text_less(key, m[k].0),
    ensures
        with_member(m, key, value) == m.take(i) + with_member(m.skip(i), key, value),
    decreases i,
{
    if i == 0 {
        assert(m.skip(0) =~= m);
        assert(m.take(0) + with_member(m, key, value) =~= with_member(m, key, value));
    } else {
        let rest = m.drop_first();
        assert(m[0].0 != key && !text_less(key, m[0].0));
        assert forall|k: int| 0 <= k < i - 1 implies (#[trigger] rest[k]).0 != key && !text_less(
            key,
            rest[k].0,
        ) by {
            assert(rest[k] == m[k + 1]);
        }
        lemma_with_member_behind(rest, key, value, i - 1);
        assert(rest.skip(i - 1) =~= m.skip(i));
        assert(seq![m[0]] + rest.take(i - 1) =~= m.take(i));
        assert(seq![m[0]] + (rest.take(i - 1) + with_member(m.skip(i), key, value)) =~= m.take(i)
            + with_member(m.skip(i), key, value));
    }
}

/// Looking for a key behind `i` members that do not have it.
proof fn lemma_member_behind(m: Seq<(Seq<char>, Json)>, key: Seq<char>, i: int)
    requires
        0 <= i <= m.len(),
        forall|k: int| 0 <= k < i ==> (#[trigger] m[k]).0 != key,
    ensures
        member(m, key) == member(m.skip(i), key),
    decreases i,
{
    if i == 0 {
        assert(m.skip(0) =~= m);
    } else {
        let rest = m.drop_first();
        assert(m[0].0 != key);
        assert forall|k: int| 0 <= k < i - 1 implies (#[trigger] rest[k]).0 != key by {
            assert(rest[k] == m[k + 1]);
        }
        lemma_member_behind(rest, key, i - 1);
        assert(rest.skip(i - 1) =~= m.skip(i));
    }
}

impl Clone for Value {
    /// A copy of the tree.
    fn clone(&self) -> (r: Self)
        ensures
            r@ == self@,
        decreases self,
    {
        match self {
            Value::Null => Value::Null,
            Value::Bool(b) => Value::Bool(*b),
            Value::Number(t) => Value::Number(t.clone()),
            Value::String(s) => Value::String(s.clone()),
            Value::Array(a) => {
                let mut out: Vec<Value> = Vec::new();
                let mut i: usize = 0;
                while i < a.len()
                    invariant
                        i <= a.len(),
                        *self == Value::Array(*a),
                        out@.len() == i,
                        forall|k: int| 0 <= k < i ==> out@[k]@ == a@[k]@,
                    decreases a.len() - i,
                {
                    proof {
                        assert(decreases_to!(*self => self->Array_0));
                        assert(decreases_to!(*a => a@));
                        assert(decreases_to!(a@ => a@[i as int]));
                    }
                    out.push(a[i].clone());
                    i += 1;
                }
                proof {
                    lemma_items_view(out@);
                    lemma_items_view(a@);
                    assert(items_view(out@) =~= items_view(a@));
                }
                Value::Array(out)
            },
            Value::Object(m) => {
                let mut out: Vec<(String, Value)> = Vec::new();
                let mut i: usize = 0;
                while i < m.len()
                    invariant
                        i <= m.len(),
                        *self == Value::Object(*m),
                        out@.len() == i,
                        forall|k: int|
                            0 <= k < i ==> out@[k].0@ == m@[k].0@ && out@[k].1@ == m@[k].1@,
                    decreases m.len() - i,
                {
                    proof {
                        assert(decreases_to!(*self => self->Object_0));
                        assert(decreases_to!(*m => m@));
                        assert(decreases_to!(m@ => m@[i as int]));
                        assert(decreases_to!(m@[i as int] => m@[i as int].1));
                    }
                    out.push((m[i].0.clone(), m[i].1.clone()));
                    i += 1;
                }
                proof {
                    lemma_members_view(out@);
                    lemma_members_view(m@);
                    assert(members_view(out@) =~= members_view(m@));
                }
                Value::Object(out)
            },
        }
    }
}

impl Value {
    /// The string `s` as a value.
    pub fn text(s: &str) -> (r: Value)
        ensures
            r@ == Json::String(s@),
    {
        Value::String(s.to_owned())
    }

    /// The number that `s` writes, if it writes one.
    pub fn number(s: &str) -> (r: Option<Value>)
        ensures
            r is Some <==> is_decimal(s@),
            r matches Some(v) ==> v@ == Json::Number(s@),
    {
        let chars = chars_of(s);
        match parse_decimal(&chars) {
            Some(_) => Some(Value::Number(s.to_owned())),
            None => None,
        }
    }

    /// An object without members.
    pub fn object() -> (r: Value)
        ensures
            r@ == Json::Object(Seq::empty()),
    {
        Value::Object(Vec::new())
    }

    /// The array of `items`.
    pub fn array(items: Vec<Value>) -> (r: Value)
        ensures
            r@ == Json::Array(items_view(items@)),
    {
        Value::Array(items)
    }

    /// Whether the value is null.
    pub fn is_null(&self) -> (r: bool)
        ensures
            r == (self@ is Null),
    {
        match self {
            Value::Null => true,
            _ => false,
        }
    }

    /// The value under `key`, where `self` is an object that has it.
    pub fn get(&self, key: &str) -> (r: Option<&Value>)
        ensures
            match self@ {
                Json::Object(m) => match member(m, key@) {
                    Some(j) => r matches Some(v) && v@ == j,
                    None => r is None,
                },
                _ => r is None,
            },
    {
        match self {
            Value::Object(m) => {
                let ghost all = members_view(m@);
                proof {
                    lemma_members_view(m@);
                }
                let wanted = key.to_owned();
                let mut i: usize = 0;
                while i < m.len()
                    invariant
                        i <= m.len(),
                        wanted@ == key@,
                        all == members_view(m@),
                        all.len() == m.len(),
                        forall|k: int| 0 <= k < m.len() ==> #[trigger] all[k] == (m@[k].0@, m@[k].1@),
                        self@ == Json::Object(all),
                        forall|k: int| 0 <= k < i ==> (#[trigger] all[k]).0 != key@,
                    decreases m.len() - i,
                {
                    if m[i].0 == wanted {
                        proof {
                            lemma_member_behind(all, key@, i as int);
                            assert(all.skip(i as int)[0] == all[i as int]);
                        }
                        return Some(&m[i].1);
                    }
                    i += 1;
                }
                proof {
                    lemma_member_behind(all, key@, i as int);
                }
                None
            },
            _ => None,
        }
    }

    /// `self` with `value` under `key`, where `self` is an object; an object of
    /// this one member, where it is anything else.
    pub fn put(self, key: String, value: Value) -> (r: Value)
        ensures
            r@ == put(self@, key@, value@),
    {
        match self {
            Value::Object(m) => {
                let mut m = m;
                let ghost before = members_view(m@);
                proof {
                    lemma_members_view(m@);
                }
                let key_chars = chars_of(key.as_str());
                let mut i: usize = 0;
                while i < m.len()
                    invariant
                        i <= m.len(),
                        key_chars@ == key@,
                        before == members_view(m@),
                        before.len() == m.len(),
                        forall|k: int|
                            0 <= k < m.len() ==> #[trigger] before[k] == (m@[k].0@, m@[k].1@),
                        forall|k: int|
                            0 <= k < i ==> (#[trigger] before[k]).0 != key@ && !text_less(
                                key@,
                                before[k].0,
                            ),
                    ensures
                        i < m.len() ==> before[i as int].0 == key@ || text_less(
                            key@,
                            before[i as int].0,
                        ),
                    decreases m.len() - i,
                {
                    if m[i].0 == key {
                        break ;
                    }
                    let here = chars_of(m[i].0.as_str());
                    if less(&key_chars, &here) {
                        break ;
                    }
                    i += 1;
                }
                let found = i < m.len() && m[i].0 == key;
                proof {
                    lemma_with_member_behind(before, key@, value@, i as int);
                }
                if found {
                    m[i] = (key, value);
                    proof {
                        lemma_members_view(m@);
                        assert(members_view(m@) =~= before.take(i as int) + (seq![(key@, value@)]
                            + before.skip(i as int).drop_first()));
                    }
                } else {
                    m.insert(i, (key, value));
                    proof {
                        lemma_members_view(m@);
                        if i < before.len() {
                            assert(members_view(m@) =~= before.take(i as int) + (seq![
                                (key@, value@),
                            ] + before.skip(i as int)));
                        } else {
                            assert(before.skip(i as int) =~= Seq::empty());
                            assert(members_view(m@) =~= before.take(i as int) + seq![
                                (key@, value@),
                            ]);
                        }
                    }
                }
                Value::Object(m)
            },
            _ => {
                let mut m: Vec<(String, Value)> = Vec::new();
                m.push((key, value));
                proof {
                    lemma_members_view(m@);
                    assert(members_view(m@) =~= seq![(key@, value@)]);
                }
                Value::Object(m)
            },
        }
    }

    /// Whether the two trees are the same.
    pub fn same(&self, other: &Value) -> (r: bool)
        ensures
            r == (self@ == other@),
        decreases self,
    {
        match (self, other) {
            (Value::Null, Value::Null) => true,
            (Value::Bool(a), Value::Bool(b)) => *a == *b,
            (Value::Number(a), Value::Number(b)) => *a == *b,
            (Value::String(a), Value::String(b)) => *a == *b,
            (Value::Array(a), Value::Array(b)) => {
                proof {
                    lemma_items_view(a@);
                    lemma_items_view(b@);
                }
                if a.len() != b.len() {
                    return false;
                }
                let mut i: usize = 0;
                while i < a.len()
                    invariant
                        i <= a.len(),
                        a.len() == b.len(),
                        *self == Value::Array(*a),
                        *other == Value::Array(*b),
                        forall|k: int| 0 <= k < i ==> a@[k]@ == b@[k]@,
                    decreases a.len() - i,
                {
                    proof {
                        assert(decreases_to!(*self => self->Array_0));
                        assert(decreases_to!(*a => a@));
                        assert(decreases_to!(a@ => a@[i as int]));
                    }
                    if !a[i].same(&b[i]) {
                        proof {
                            lemma_items_view(a@);
                            lemma_items_view(b@);
                            assert(items_view(a@)[i as int] != items_view(b@)[i as int]);
                        }
                        return false;
                    }
                    i += 1;
                }
                assert(items_view(a@) =~= items_view(b@));
                true
            },
            (Value::Object(a), Value::Object(b)) => {
                proof {
                    lemma_members_view(a@);
                    lemma_members_view(b@);
                }
                if a.len() != b.len() {
                    return false;
                }
                let mut i: usize = 0;
                while i < a.len()
                    invariant
                        i <= a.len(),
                        a.len() == b.len(),
                        *self == Value::Object(*a),
                        *other == Value::Object(*b),
                        forall|k: int|
                            0 <= k < i ==> a@[k].0@ == b@[k].0@ && a@[k].1@ == b@[k].1@,
                    decreases a.len() - i,
                {
                    proof {
                        assert(decreases_to!(*self => self->Object_0));
                        assert(decreases_to!(*a => a@));
                        assert(decreases_to!(a@ => a@[i as int]));
                        assert(decreases_to!(a@[i as int] => a@[i as int].1));
                    }
                    if !(a[i].0 == b[i].0) || !a[i].1.same(&b[i].1) {
                        proof {
                            lemma_members_view(a@);
                            lemma_members_view(b@);
                            assert(members_view(a@)[i as int] != members_view(b@)[i as int]);
                        }
                        return false;
                    }
                    i += 1;
                }
                assert(members_view(a@) =~= members_view(b@));
                true
            },
            _ => false,
        }
    }
}

} // verus!
