//! Paths into a tree: `user.friends.0.name`.
//!
//! A path is cut at its dots into segments. A segment names a member of an
//! object by its key, or an item of an array by its index, written in digits
//! without a leading zero. Where a segment finds nothing, the path is missing.

use crate::number::{is_digit, nat_of, digit};
use crate::text::{chars_of, string_of};
use crate::value::{Json, Value, lemma_items_view, member};
use vstd::prelude::*;

verus! {

/// Where the segment that begins at `i` ends: at the next dot, or at the end.
pub open spec fn segment_end(p: Seq<char>, i: int) -> int
    decreases p.len() - i,
{
    if 0 <= i < p.len() && p[i] != '.' {
        segment_end(p, i + 1)
    } else {
        i
    }
}

/// A segment ends in the path, at a dot or at the path's end, with no dot in it.
pub proof fn lemma_segment_end(p: Seq<char>, i: int)
    requires
        0 <= i <= p.len(),
    ensures
        i <= segment_end(p, i) <= p.len(),
        segment_end(p, i) < p.len() ==> p[segment_end(p, i)] == '.',
        forall|k: int| i <= k < segment_end(p, i) ==> #[trigger] p[k] != '.',
    decreases p.len() - i,
{
    if i < p.len() && p[i] != '.' {
        lemma_segment_end(p, i + 1);
    }
}

/// The segments of `p` from position `i` on. There is always at least one: the
/// empty path has one empty segment.
pub open spec fn segments_from(p: Seq<char>, i: int) -> Seq<Seq<char>>
    decreases p.len() - i,
{
    if i < 0 || i > p.len() {
        Seq::empty()
    } else {
        proof {
            lemma_segment_end(p, i);
        }
        let e = segment_end(p, i);
        if e >= p.len() {
            seq![p.subrange(i, e)]
        } else {
            seq![p.subrange(i, e)] + segments_from(p, e + 1)
        }
    }
}

/// The segments of `p`.
pub open spec fn segments(p: Seq<char>) -> Seq<Seq<char>> {
    segments_from(p, 0)
}

/// The index that a segment writes: digits only, at least one, and no zero in
/// front of another digit.
pub open spec fn index_of(seg: Seq<char>) -> Option<nat> {
    if seg.len() >= 1 && (seg.len() == 1 || seg[0] != '0') && forall|k: int|
        0 <= k < seg.len() ==> is_digit(#[trigger] seg[k]) {
        Some(nat_of(seg))
    } else {
        None
    }
}

/// What the segment `seg` finds in `j`.
pub open spec fn step(j: Json, seg: Seq<char>) -> Option<Json> {
    match j {
        Json::Object(m) => member(m, seg),
        Json::Array(a) => match index_of(seg) {
            Some(n) => if n < a.len() {
                Some(a[n as int])
            } else {
                None
            },
            None => None,
        },
        _ => None,
    }
}

/// What the segments `segs`, one after the other, find in `j`.
pub open spec fn resolve_from(j: Json, segs: Seq<Seq<char>>) -> Option<Json>
    decreases segs.len(),
{
    if segs.len() == 0 {
        Some(j)
    } else {
        match step(j, segs[0]) {
            Some(inner) => resolve_from(inner, segs.drop_first()),
            None => None,
        }
    }
}

/// What the path `p` finds in `j`; `None` where it is missing.
pub open spec fn resolve(j: Json, p: Seq<char>) -> Option<Json> {
    resolve_from(j, segments(p))
}

/// Digits in front write no more than the whole.
proof fn lemma_nat_of_prefix(s: Seq<char>, k: int)
    requires
        0 <= k <= s.len(),
    ensures
        nat_of(s.take(k)) <= nat_of(s),
    decreases s.len() - k,
{
    if k < s.len() {
        lemma_nat_of_prefix(s, k + 1);
        assert(s.take(k + 1).drop_last() =~= s.take(k));
    } else {
        assert(s.take(k) =~= s);
    }
}

/// The index below `len` that `seg` writes, if it writes one.
fn index_below(seg: &Vec<char>, len: usize) -> (r: Option<usize>)
    ensures
        match index_of(seg@) {
            Some(n) => if n < len {
                r == Some(n as usize)
            } else {
                r is None
            },
            None => r is None,
        },
{
    if seg.len() == 0 || (seg.len() > 1 && seg[0] == '0') {
        return None;
    }
    let mut n: u128 = 0;
    let mut i: usize = 0;
    assert(seg@.take(0) =~= Seq::<char>::empty());
    while i < seg.len()
        invariant
            i <= seg.len(),
            seg.len() >= 1,
            seg.len() == 1 || seg@[0] != '0',
            forall|k: int| 0 <= k < i ==> is_digit(#[trigger] seg@[k]),
            n == nat_of(seg@.take(i as int)),
            i > 0 ==> n < len,
        decreases seg.len() - i,
    {
        if !digit(seg[i]) {
            return None;
        }
        let d: u128 = (seg[i] as u32 - '0' as u32) as u128;
        proof {
            assert(seg@.take(i + 1).drop_last() =~= seg@.take(i as int));
            assert(seg@.take(i + 1).last() == seg@[i as int]);
        }
        n = n * 10 + d;
        if n >= len as u128 {
            proof {
                lemma_nat_of_prefix(seg@, i + 1);
                if index_of(seg@) is Some {
                    assert(nat_of(seg@) >= len);
                }
            }
            return None;
        }
        i += 1;
    }
    assert(seg@.take(i as int) =~= seg@);
    Some(n as usize)
}

/// What the segment `seg` finds in `v`.
fn step_into<'a>(v: &'a Value, seg: &Vec<char>) -> (r: Option<&'a Value>)
    ensures
        match step(v@, seg@) {
            Some(j) => r matches Some(inner) && inner@ == j,
            None => r is None,
        },
{
    match v {
        Value::Object(_) => {
            let key = string_of(seg, 0, seg.len());
            assert(key@ =~= seg@);
            v.get(key.as_str())
        },
        Value::Array(a) => {
            proof {
                lemma_items_view(a@);
            }
            match index_below(seg, a.len()) {
                Some(n) => Some(&a[n]),
                None => None,
            }
        },
        _ => None,
    }
}

/// What the path `p` finds in `v`; `None` where it is missing.
pub fn lookup<'a>(v: &'a Value, p: &str) -> (r: Option<&'a Value>)
    ensures
        match resolve(v@, p@) {
            Some(j) => r matches Some(found) && found@ == j,
            None => r is None,
        },
{
    let path = chars_of(p);
    let mut at: &Value = v;
    let mut i: usize = 0;
    loop
        invariant
            i <= path.len(),
            path@ == p@,
            resolve(v@, p@) == resolve_from(at@, segments_from(path@, i as int)),
        decreases path.len() - i,
    {
        let start = i;
        while i < path.len() && path[i] != '.'
            invariant
                start <= i <= path.len(),
                segment_end(path@, start as int) == segment_end(path@, i as int),
            decreases path.len() - i,
        {
            i += 1;
        }
        let mut seg: Vec<char> = Vec::new();
        let mut k: usize = start;
        while k < i
            invariant
                start <= k <= i <= path.len(),
                seg@ == path@.subrange(start as int, k as int),
            decreases i - k,
        {
            seg.push(path[k]);
            k += 1;
        }
        let ghost segs = segments_from(path@, start as int);
        assert(segs[0] == seg@);
        match step_into(at, &seg) {
            None => {
                return None;
            },
            Some(inner) => {
                if i >= path.len() {
                    assert(segs.drop_first() =~= Seq::<Seq<char>>::empty());
                    assert(resolve_from(inner@, segs.drop_first()) == Some(inner@));
                    return Some(inner);
                }
                assert(segs.drop_first() =~= segments_from(path@, i + 1));
                at = inner;
                i += 1;
            },
        }
    }
}

} // verus!
