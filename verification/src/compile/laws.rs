//! What holds of the compiler on every template, tree and context.

use crate::compile::string::{
    body_end,
    body_of,
    closes_at,
    expand_from,
    expanded,
    is_masked,
    lemma_body_end,
    opens_at,
    parts,
    path_of,
    placeholder_end,
    substitute,
    valid_from,
    valid_template,
};
use crate::compile::value::{
    compiled,
    compiled_items,
    compiled_members,
    lemma_compiled_items,
    lemma_compiled_members,
    retyped,
    valid_tree,
    yaml_scalar,
};
use crate::path::resolve;
use crate::render::string_form;
use crate::text::{is_blank, word_end, words_from};
use crate::value::{Json, keys_rise};
use vstd::prelude::*;

verus! {

/// Whether no placeholder begins in `t`.
pub open spec fn plain(t: Seq<char>) -> bool {
    forall|k: int| 0 <= k < t.len() ==> placeholder_end(t, k) is None
}

proof fn lemma_plain_from(t: Seq<char>, ctx: Json, masked: bool, i: int)
    requires
        0 <= i <= t.len(),
        plain(t),
    ensures
        valid_from(t, i),
        expand_from(t, ctx, masked, i) == t.skip(i),
    decreases t.len() - i,
{
    if i < t.len() {
        lemma_plain_from(t, ctx, masked, i + 1);
        assert(seq![t[i]] + t.skip(i + 1) =~= t.skip(i));
    } else {
        assert(t.skip(i) =~= Seq::<char>::empty());
    }
}

/// A text without placeholders is a template and compiles to itself on both
/// tracks, whatever the context holds.
pub proof fn law_plain_text_compiles_to_itself(t: Seq<char>, ctx: Json)
    requires
        plain(t),
    ensures
        valid_template(t),
        expanded(t, ctx, false) == t,
        expanded(t, ctx, true) == t,
{
    lemma_plain_from(t, ctx, false, 0);
    lemma_plain_from(t, ctx, true, 0);
    assert(t.skip(0) =~= t);
}

/// Whether `p` can stand alone in a placeholder: it holds no blank and no `}}`.
pub open spec fn one_word(p: Seq<char>) -> bool {
    &&& forall|k: int| 0 <= k < p.len() ==> !is_blank(#[trigger] p[k])
    &&& forall|k: int| 0 <= k < p.len() ==> !closes_at(p, k)
}

/// The template `${{ p }}`.
pub open spec fn plain_placeholder(p: Seq<char>) -> Seq<char> {
    "${{ "@ + p + " }}"@
}

/// The template `${{ mask p }}`.
pub open spec fn masked_placeholder(p: Seq<char>) -> Seq<char> {
    "${{ mask "@ + p + " }}"@
}

proof fn lemma_body_end_is(t: Seq<char>, from: int, j: int)
    requires
        0 <= from <= j,
        closes_at(t, j),
        forall|k: int| from <= k < j ==> !closes_at(t, k) && #[trigger] t[k] != '\n',
    ensures
        body_end(t, from) == Some(j),
    decreases j - from,
{
    if from < j {
        lemma_body_end_is(t, from + 1, j);
    }
}

proof fn lemma_word_end_is(s: Seq<char>, i: int, e: int)
    requires
        0 <= i <= e <= s.len(),
        forall|k: int| i <= k < e ==> !is_blank(#[trigger] s[k]),
        e == s.len() || is_blank(s[e]),
    ensures
        word_end(s, i) == e,
    decreases e - i,
{
    if i < e {
        lemma_word_end_is(s, i + 1, e);
    }
}

proof fn lemma_blanks_only(s: Seq<char>, i: int)
    requires
        0 <= i <= s.len(),
        forall|k: int| i <= k < s.len() ==> is_blank(#[trigger] s[k]),
    ensures
        words_from(s, i) == Seq::<Seq<char>>::empty(),
    decreases s.len() - i,
{
    if i < s.len() {
        lemma_blanks_only(s, i + 1);
    }
}

/// The body ` p ` holds the one word `p`.
proof fn lemma_parts_of_one(body: Seq<char>, p: Seq<char>)
    requires
        body == seq![' '] + p + seq![' '],
        forall|k: int| 0 <= k < p.len() ==> !is_blank(#[trigger] p[k]),
    ensures
        parts(body) == seq![p],
{
    let n = p.len() as int;
    assert(is_blank(body[0]));
    assert(words_from(body, 0) == words_from(body, 1));
    if n == 0 {
        lemma_blanks_only(body, 1);
        assert(p =~= Seq::<char>::empty());
    } else {
        assert forall|k: int| 1 <= k < 1 + n implies !is_blank(#[trigger] body[k]) by {
            assert(body[k] == p[k - 1]);
        }
        assert(is_blank(body[1 + n]));
        lemma_word_end_is(body, 1, 1 + n);
        assert(body.subrange(1, 1 + n) =~= p);
        lemma_blanks_only(body, 1 + n);
        assert(seq![p] + Seq::<Seq<char>>::empty() =~= seq![p]);
    }
}

/// The body ` mask p ` holds the two words `mask` and `p`.
proof fn lemma_parts_of_two(body: Seq<char>, p: Seq<char>)
    requires
        body == seq![' ', 'm', 'a', 's', 'k', ' '] + p + seq![' '],
        p.len() > 0,
        forall|k: int| 0 <= k < p.len() ==> !is_blank(#[trigger] p[k]),
    ensures
        parts(body) == seq![seq!['m', 'a', 's', 'k'], p],
{
    let n = p.len() as int;
    assert(is_blank(body[0]));
    assert(words_from(body, 0) == words_from(body, 1));
    assert(body[1] == 'm' && body[2] == 'a' && body[3] == 's' && body[4] == 'k');
    assert(is_blank(body[5]));
    lemma_word_end_is(body, 1, 5);
    assert(body.subrange(1, 5) =~= seq!['m', 'a', 's', 'k']);
    assert(words_from(body, 1) == seq![body.subrange(1, 5)] + words_from(body, 5));
    assert(words_from(body, 5) == words_from(body, 6));
    assert forall|k: int| 6 <= k < 6 + n implies !is_blank(#[trigger] body[k]) by {
        assert(body[k] == p[k - 6]);
    }
    assert(is_blank(body[6 + n]));
    lemma_word_end_is(body, 6, 6 + n);
    assert(body.subrange(6, 6 + n) =~= p);
    lemma_blanks_only(body, 6 + n);
    assert(words_from(body, 6) == seq![p] + words_from(body, 6 + n));
    assert(seq![seq!['m', 'a', 's', 'k']] + (seq![p] + Seq::<Seq<char>>::empty()) =~= seq![
        seq!['m', 'a', 's', 'k'],
        p,
    ]);
}

/// A template that is one placeholder around `body`, whose body holds no `}}`
/// that ends it early, compiles to what takes the placeholder's place.
proof fn lemma_single_placeholder(t: Seq<char>, body: Seq<char>, ctx: Json, masked: bool)
    requires
        t == seq!['$', '{', '{'] + body + seq!['}', '}'],
        forall|k: int| 0 <= k < body.len() ==> #[trigger] body[k] != '\n',
        forall|k: int|
            0 <= k < body.len() ==> !(#[trigger] body[k] == '}' && (k + 1 == body.len() || body[k
                + 1] == '}')),
        parts(body).len() <= 2,
    ensures
        valid_template(t),
        expanded(t, ctx, masked) == substitute(body, ctx, masked),
{
    let n = body.len() as int;
    assert(opens_at(t, 0));
    assert(closes_at(t, 3 + n));
    assert forall|k: int| 3 <= k < 3 + n implies !closes_at(t, k) && #[trigger] t[k] != '\n' by {
        assert(t[k] == body[k - 3]);
        if k + 1 < 3 + n {
            assert(t[k + 1] == body[k - 2]);
        }
    }
    lemma_body_end_is(t, 3, 3 + n);
    assert(placeholder_end(t, 0) == Some(5 + n));
    assert(body_of(t, 0, 5 + n) =~= body);
    assert(valid_from(t, 5 + n));
    assert(expand_from(t, ctx, masked, 5 + n) =~= Seq::<char>::empty());
    assert(substitute(body, ctx, masked) + Seq::<char>::empty() =~= substitute(body, ctx, masked));
}

/// For a path `p` of one word, `${{ p }}` compiles on both tracks to the string
/// form of what `p` finds, and to the empty string where `p` is missing.
pub proof fn law_placeholder_gives_the_value(ctx: Json, p: Seq<char>, masked: bool)
    requires
        one_word(p),
    ensures
        valid_template(plain_placeholder(p)),
        expanded(plain_placeholder(p), ctx, masked) == match resolve(ctx, p) {
            Some(v) => string_form(v),
            None => Seq::empty(),
        },
{
    reveal_strlit("${{ ");
    reveal_strlit(" }}");
    let body = seq![' '] + p + seq![' '];
    let t = plain_placeholder(p);
    assert(t =~= seq!['$', '{', '{'] + body + seq!['}', '}']);
    lemma_parts_of_one(body, p);
    assert forall|k: int| 0 <= k < body.len() implies !(#[trigger] body[k] == '}' && (k + 1
        == body.len() || body[k + 1] == '}')) by {
        if 1 <= k < 1 + p.len() {
            assert(body[k] == p[k - 1]);
            if k + 1 < 1 + p.len() {
                assert(body[k + 1] == p[k]);
                assert(!closes_at(p, k - 1));
            }
        }
    }
    assert forall|k: int| 0 <= k < body.len() implies #[trigger] body[k] != '\n' by {
        if 1 <= k < 1 + p.len() {
            assert(body[k] == p[k - 1]);
        }
    }
    lemma_single_placeholder(t, body, ctx, masked);
}

/// For a path `p` of one word that is not empty, `${{ mask p }}` compiles on the
/// raw track as `${{ p }}` does; on the masked track it compiles to `****` where
/// `p` finds a value, and to the empty string where `p` is missing.
pub proof fn law_mask_hides_the_value(ctx: Json, p: Seq<char>)
    requires
        one_word(p),
        p.len() > 0,
    ensures
        valid_template(masked_placeholder(p)),
        expanded(masked_placeholder(p), ctx, false) == expanded(plain_placeholder(p), ctx, false),
        expanded(masked_placeholder(p), ctx, true) == match resolve(ctx, p) {
            Some(v) => "****"@,
            None => Seq::empty(),
        },
{
    reveal_strlit("${{ mask ");
    reveal_strlit(" }}");
    let body = seq![' ', 'm', 'a', 's', 'k', ' '] + p + seq![' '];
    let t = masked_placeholder(p);
    assert(t =~= seq!['$', '{', '{'] + body + seq!['}', '}']);
    lemma_parts_of_two(body, p);
    assert forall|k: int| 0 <= k < body.len() implies !(#[trigger] body[k] == '}' && (k + 1
        == body.len() || body[k + 1] == '}')) by {
        if 6 <= k < 6 + p.len() {
            assert(body[k] == p[k - 6]);
            if k + 1 < 6 + p.len() {
                assert(body[k + 1] == p[k - 5]);
                assert(!closes_at(p, k - 6));
            }
        }
    }
    assert forall|k: int| 0 <= k < body.len() implies #[trigger] body[k] != '\n' by {
        if 6 <= k < 6 + p.len() {
            assert(body[k] == p[k - 6]);
        }
    }
    lemma_single_placeholder(t, body, ctx, false);
    lemma_single_placeholder(t, body, ctx, true);
    law_placeholder_gives_the_value(ctx, p, false);
}

/// A placeholder whose path is missing leaves nothing behind, on either track:
/// the text goes on behind it as if it had not been there.
pub proof fn law_missing_path_leaves_nothing(
    t: Seq<char>,
    ctx: Json,
    masked: bool,
    i: int,
    e: int,
)
    requires
        0 <= i < t.len(),
        placeholder_end(t, i) == Some(e),
        resolve(ctx, path_of(body_of(t, i, e))) is None,
    ensures
        expand_from(t, ctx, masked, i) == expand_from(t, ctx, masked, e),
{
    assert(Seq::<char>::empty() + expand_from(t, ctx, masked, e) =~= expand_from(
        t,
        ctx,
        masked,
        e,
    ));
}

/// Whether the contexts `c1` and `c2` show the same for every placeholder of
/// `t`: the same value where it is not masked, and a value in both or in
/// neither where it is masked.
pub open spec fn show_the_same(t: Seq<char>, c1: Json, c2: Json) -> bool {
    forall|i: int|
        0 <= i < t.len() && (#[trigger] placeholder_end(t, i)) is Some ==> {
            let body = body_of(t, i, placeholder_end(t, i)->Some_0);
            if is_masked(body) {
                resolve(c1, path_of(body)) is Some <==> resolve(c2, path_of(body)) is Some
            } else {
                resolve(c1, path_of(body)) == resolve(c2, path_of(body))
            }
        }
}

proof fn lemma_masked_track_from(t: Seq<char>, c1: Json, c2: Json, i: int)
    requires
        0 <= i,
        show_the_same(t, c1, c2),
    ensures
        expand_from(t, c1, true, i) == expand_from(t, c2, true, i),
    decreases t.len() - i,
{
    if i < t.len() {
        match placeholder_end(t, i) {
            Some(e) => {
                lemma_body_end(t, i + 3);
                lemma_masked_track_from(t, c1, c2, e);
            },
            None => {
                lemma_masked_track_from(t, c1, c2, i + 1);
            },
        }
    }
}

/// The masked text does not depend on the values that are masked: two contexts
/// that differ in masked values only give the same masked text.
pub proof fn law_masked_text_hides_masked_values(t: Seq<char>, c1: Json, c2: Json)
    requires
        show_the_same(t, c1, c2),
    ensures
        expanded(t, c1, true) == expanded(t, c2, true),
{
    lemma_masked_track_from(t, c1, c2, 0);
}

/// Whether the contexts `c1` and `c2` show the same for every placeholder in
/// every string of the tree `j`.
pub open spec fn tree_shows_the_same(j: Json, c1: Json, c2: Json) -> bool
    decreases j,
{
    match j {
        Json::String(s) => show_the_same(s, c1, c2),
        Json::Array(a) => forall|i: int|
            0 <= i < a.len() ==> tree_shows_the_same(#[trigger] a[i], c1, c2),
        Json::Object(m) => forall|i: int|
            0 <= i < m.len() ==> tree_shows_the_same((#[trigger] m[i]).1, c1, c2),
        _ => true,
    }
}

/// The masked tree does not depend on the values that are masked: two contexts
/// that differ in masked values only give the same masked tree.
pub proof fn law_masked_tree_hides_masked_values(j: Json, c1: Json, c2: Json)
    requires
        tree_shows_the_same(j, c1, c2),
    ensures
        compiled(j, c1, true) == compiled(j, c2, true),
    decreases j,
{
    match j {
        Json::String(s) => {
            law_masked_text_hides_masked_values(s, c1, c2);
        },
        Json::Array(a) => {
            lemma_compiled_items(a, c1, true, a.len());
            lemma_compiled_items(a, c2, true, a.len());
            assert forall|i: int| 0 <= i < a.len() implies compiled(#[trigger] a[i], c1, true)
                == compiled(a[i], c2, true) by {
                law_masked_tree_hides_masked_values(a[i], c1, c2);
            }
            assert(compiled_items(a, c1, true, a.len()) =~= compiled_items(a, c2, true, a.len()));
        },
        Json::Object(m) => {
            lemma_compiled_members(m, c1, true, m.len());
            lemma_compiled_members(m, c2, true, m.len());
            assert forall|i: int| 0 <= i < m.len() implies compiled(
                (#[trigger] m[i]).1,
                c1,
                true,
            ) == compiled(m[i].1, c2, true) by {
                law_masked_tree_hides_masked_values(m[i].1, c1, c2);
            }
            assert(compiled_members(m, c1, true, m.len()) =~= compiled_members(
                m,
                c2,
                true,
                m.len(),
            ));
        },
        _ => {},
    }
}

/// Whether compiling leaves the tree as it is: no string of it holds a
/// placeholder or reads as null, as a boolean or as a number.
pub open spec fn plain_tree(j: Json) -> bool
    decreases j,
{
    match j {
        Json::String(s) => plain(s) && retyped(s, yaml_scalar(s)) == j,
        Json::Array(a) => forall|i: int| 0 <= i < a.len() ==> plain_tree(#[trigger] a[i]),
        Json::Object(m) => forall|i: int| 0 <= i < m.len() ==> plain_tree((#[trigger] m[i]).1),
        _ => true,
    }
}

/// A tree without placeholders, none of whose strings reads as null, as a
/// boolean or as a number, compiles to itself on both tracks.
pub proof fn law_plain_tree_compiles_to_itself(j: Json, ctx: Json, masked: bool)
    requires
        plain_tree(j),
    ensures
        valid_tree(j),
        compiled(j, ctx, masked) == j,
    decreases j,
{
    match j {
        Json::String(s) => {
            law_plain_text_compiles_to_itself(s, ctx);
        },
        Json::Array(a) => {
            lemma_compiled_items(a, ctx, masked, a.len());
            assert forall|i: int| 0 <= i < a.len() implies valid_tree(#[trigger] a[i]) && compiled(
                a[i],
                ctx,
                masked,
            ) == a[i] by {
                law_plain_tree_compiles_to_itself(a[i], ctx, masked);
            }
            assert(compiled_items(a, ctx, masked, a.len()) =~= a);
        },
        Json::Object(m) => {
            lemma_compiled_members(m, ctx, masked, m.len());
            assert forall|i: int| 0 <= i < m.len() implies valid_tree((#[trigger] m[i]).1)
                && compiled(m[i].1, ctx, masked) == m[i].1 by {
                law_plain_tree_compiles_to_itself(m[i].1, ctx, masked);
            }
            assert(compiled_members(m, ctx, masked, m.len()) =~= m);
        },
        _ => {},
    }
}

/// The two tracks of a compiled tree have the same shape: arrays of the same
/// length and objects with the same keys, wherever the tree has them.
pub proof fn law_tracks_have_one_shape(j: Json, ctx: Json)
    ensures
        match j {
            Json::Array(a) => compiled(j, ctx, false) is Array && compiled(j, ctx, true) is Array
                && compiled(j, ctx, false)->Array_0.len() == a.len() && compiled(
                j,
                ctx,
                true,
            )->Array_0.len() == a.len(),
            Json::Object(m) => compiled(j, ctx, false) is Object && compiled(j, ctx, true) is Object
                && compiled(j, ctx, false)->Object_0.len() == m.len() && compiled(
                j,
                ctx,
                true,
            )->Object_0.len() == m.len() && forall|i: int|
                0 <= i < m.len() ==> (#[trigger] compiled(j, ctx, false)->Object_0[i]).0 == m[i].0
                    && compiled(j, ctx, true)->Object_0[i].0 == m[i].0,
            Json::String(_) => true,
            _ => compiled(j, ctx, false) == j && compiled(j, ctx, true) == j,
        },
{
    match j {
        Json::Array(a) => {
            lemma_compiled_items(a, ctx, false, a.len());
            lemma_compiled_items(a, ctx, true, a.len());
        },
        Json::Object(m) => {
            lemma_compiled_members(m, ctx, false, m.len());
            lemma_compiled_members(m, ctx, true, m.len());
        },
        _ => {},
    }
}

/// A well-formed tree compiles to a well-formed tree.
pub proof fn law_compiled_tree_is_well_formed(j: Json, ctx: Json, masked: bool)
    requires
        j.wf(),
    ensures
        compiled(j, ctx, masked).wf(),
    decreases j,
{
    match j {
        Json::Array(a) => {
            lemma_compiled_items(a, ctx, masked, a.len());
            let r = compiled_items(a, ctx, masked, a.len());
            assert forall|i: int| 0 <= i < r.len() implies (#[trigger] r[i]).wf() by {
                assert(a[i].wf());
                law_compiled_tree_is_well_formed(a[i], ctx, masked);
            }
        },
        Json::Object(m) => {
            lemma_compiled_members(m, ctx, masked, m.len());
            let r = compiled_members(m, ctx, masked, m.len());
            assert forall|i: int| 0 <= i < r.len() implies (#[trigger] r[i]).1.wf() by {
                assert(m[i].1.wf());
                law_compiled_tree_is_well_formed(m[i].1, ctx, masked);
            }
            assert(keys_rise(r)) by {
                assert forall|i: int, k: int| 0 <= i < k < r.len() implies crate::text::text_less(
                    #[trigger] r[i].0,
                    #[trigger] r[k].0,
                ) by {
                    assert(r[i].0 == m[i].0 && r[k].0 == m[k].0);
                }
            }
        },
        _ => {},
    }
}

} // verus!
