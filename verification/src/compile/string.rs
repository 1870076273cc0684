//! Placeholders in a string.
//!
//! A placeholder is `${{`, a body without a line feed, and the first `}}` behind
//! it. The body holds a path, or a keyword and a path: with two words the value
//! is masked. What the path finds takes the placeholder's place, in its string
//! form; nothing does where the path is missing. What was put in is not read
//! again.

use crate::error::ConfigError;
use crate::path::{lookup, resolve};
use crate::render::{string_form, string_of_value};
use crate::text::{chars_of, split_words, texts, words};
use crate::value::{Json, Value};
use vstd::prelude::*;
use vstd::string::StringExecFns;

verus! {

/// A compiled string: the raw text and the masked one.
#[derive(Debug)]
pub struct CompiledString {
    /// With the values that the paths found.
    pub raw: String,
    /// With `****` in place of each masked value.
    pub masked: String,
}

/// Whether `${{` stands at `i`.
pub open spec fn opens_at(t: Seq<char>, i: int) -> bool {
    0 <= i && i + 3 <= t.len() && t[i] == '$' && t[i + 1] == '{' && t[i + 2] == '{'
}

/// Whether `}}` stands at `j`.
pub open spec fn closes_at(t: Seq<char>, j: int) -> bool {
    0 <= j && j + 2 <= t.len() && t[j] == '}' && t[j + 1] == '}'
}

/// Where the body that begins at `from` ends: at the first `}}`, if no line feed
/// comes before it.
pub open spec fn body_end(t: Seq<char>, from: int) -> Option<int>
    decreases t.len() - from,
{
    if from < 0 || from >= t.len() {
        None
    } else if closes_at(t, from) {
        Some(from)
    } else if t[from] == '\n' {
        None
    } else {
        body_end(t, from + 1)
    }
}

/// Where the placeholder that begins at `i` ends, if one begins there.
pub open spec fn placeholder_end(t: Seq<char>, i: int) -> Option<int> {
    if opens_at(t, i) {
        match body_end(t, i + 3) {
            Some(j) => Some(j + 2),
            None => None,
        }
    } else {
        None
    }
}

/// The body of the placeholder that stands in `t` from `i` to `e`.
pub open spec fn body_of(t: Seq<char>, i: int, e: int) -> Seq<char> {
    t.subrange(i + 3, e - 2)
}

/// A body ends behind its start, with `}}` at its end and neither `}}` nor a
/// line feed before.
pub proof fn lemma_body_end(t: Seq<char>, from: int)
    requires
        0 <= from,
    ensures
        body_end(t, from) matches Some(j) ==> from <= j && closes_at(t, j) && forall|k: int|
            from <= k < j ==> !closes_at(t, k) && #[trigger] t[k] != '\n',
    decreases t.len() - from,
{
    if from < t.len() && !closes_at(t, from) && t[from] != '\n' {
        lemma_body_end(t, from + 1);
    }
}

/// The words of a body: its words, or one empty word where it has none.
pub open spec fn parts(body: Seq<char>) -> Seq<Seq<char>> {
    if words(body).len() == 0 {
        seq![Seq::empty()]
    } else {
        words(body)
    }
}

/// Whether the value of the placeholder is masked.
pub open spec fn is_masked(body: Seq<char>) -> bool {
    parts(body).len() == 2
}

/// The path of the placeholder: its last word.
pub open spec fn path_of(body: Seq<char>) -> Seq<char> {
    if parts(body).len() == 1 {
        parts(body)[0]
    } else {
        parts(body)[1]
    }
}

/// What takes the place of a placeholder with one or two words.
pub open spec fn substitute(body: Seq<char>, ctx: Json, masked: bool) -> Seq<char> {
    match resolve(ctx, path_of(body)) {
        None => Seq::empty(),
        Some(v) => if masked && is_masked(body) {
            "****"@
        } else {
            string_form(v)
        },
    }
}

/// Whether every placeholder of `t` from `i` on has one or two words.
pub open spec fn valid_from(t: Seq<char>, i: int) -> bool
    decreases t.len() - i,
{
    if i < 0 || i >= t.len() {
        true
    } else {
        match placeholder_end(t, i) {
            Some(e) => {
                proof {
                    lemma_body_end(t, i + 3);
                }
                parts(body_of(t, i, e)).len() <= 2 && valid_from(t, e)
            },
            None => valid_from(t, i + 1),
        }
    }
}

/// `t` from `i` on, with each placeholder replaced; read from the left, so that
/// a placeholder ends where the next may begin.
pub open spec fn expand_from(t: Seq<char>, ctx: Json, masked: bool, i: int) -> Seq<char>
    decreases t.len() - i,
{
    if i < 0 || i >= t.len() {
        Seq::empty()
    } else {
        match placeholder_end(t, i) {
            Some(e) => {
                proof {
                    lemma_body_end(t, i + 3);
                }
                substitute(body_of(t, i, e), ctx, masked) + expand_from(t, ctx, masked, e)
            },
            None => seq![t[i]] + expand_from(t, ctx, masked, i + 1),
        }
    }
}

/// Whether `t` is a template: each of its placeholders has one or two words.
pub open spec fn valid_template(t: Seq<char>) -> bool {
    valid_from(t, 0)
}

/// The template `t` with each placeholder replaced by what its path finds in
/// `ctx`; on the masked track, by `****` where the value is masked.
pub open spec fn expanded(t: Seq<char>, ctx: Json, masked: bool) -> Seq<char> {
    expand_from(t, ctx, masked, 0)
}

/// Where the placeholder that begins at `i` ends, if one begins there.
fn find_end(t: &Vec<char>, i: usize) -> (r: Option<usize>)
    requires
        i < t.len(),
    ensures
        match placeholder_end(t@, i as int) {
            Some(e) => r == Some(e as usize) && i + 5 <= e <= t.len(),
            None => r is None,
        },
{
    if t.len() - i < 3 || t[i] != '$' || t[i + 1] != '{' || t[i + 2] != '{' {
        return None;
    }
    let mut j: usize = i + 3;
    while j < t.len()
        invariant
            i + 3 <= j <= t.len(),
            opens_at(t@, i as int),
            body_end(t@, i + 3) == body_end(t@, j as int),
        decreases t.len() - j,
    {
        if t[j] == '}' && t.len() - j >= 2 && t[j + 1] == '}' {
            return Some(j + 2);
        }
        if t[j] == '\n' {
            return None;
        }
        j += 1;
    }
    None
}

/// Compiles a string: replaces each placeholder by what its path finds in `data`.
///
/// `I am ${{ user.name }}` with `{"user": {"name": "Joe"}}` gives `I am Joe` on
/// both tracks; `I am ${{ mask user.name }}` gives `I am Joe` on the raw track
/// and `I am ****` on the masked one. A placeholder with more than two words is
/// a fault of the definition.
pub fn compile_string(value: &str, data: &Value) -> (r: Result<CompiledString, ConfigError>)
    ensures
        valid_template(value@) ==> (r matches Ok(c) && c.raw@ == expanded(value@, data@, false)
            && c.masked@ == expanded(value@, data@, true)),
        !valid_template(value@) ==> r == Err::<CompiledString, ConfigError>(
            ConfigError::InvalidTemplate,
        ),
{
    let t = chars_of(value);
    let mut raw = String::new();
    let mut masked = String::new();
    let mut i: usize = 0;
    assert(raw@ + expand_from(t@, data@, false, 0) =~= expanded(t@, data@, false));
    assert(masked@ + expand_from(t@, data@, true, 0) =~= expanded(t@, data@, true));
    while i < t.len()
        invariant
            i <= t.len(),
            t@ == value@,
            valid_template(t@) == valid_from(t@, i as int),
            raw@ + expand_from(t@, data@, false, i as int) == expanded(t@, data@, false),
            masked@ + expand_from(t@, data@, true, i as int) == expanded(t@, data@, true),
        decreases t.len() - i,
    {
        let ghost raw_before = raw@;
        let ghost masked_before = masked@;
        match find_end(&t, i) {
            Some(e) => {
                let mut body_chars: Vec<char> = Vec::new();
                let mut k: usize = i + 3;
                while k < e - 2
                    invariant
                        i + 3 <= k <= e - 2,
                        e <= t.len(),
                        body_chars@ == t@.subrange(i + 3, k as int),
                    decreases e - 2 - k,
                {
                    body_chars.push(t[k]);
                    k += 1;
                }
                let ghost body = body_of(t@, i as int, e as int);
                let found = split_words(&body_chars);
                assert(texts(found@).len() == found@.len());
                if found.len() > 2 {
                    return Err(ConfigError::InvalidTemplate);
                }
                let empty = String::new();
                let path: &String = if found.len() == 0 {
                    &empty
                } else if found.len() == 1 {
                    &found[0]
                } else {
                    &found[1]
                };
                assert(path@ == path_of(body)) by {
                    if found.len() == 1 {
                        assert(texts(found@)[0] == found@[0]@);
                    } else if found.len() == 2 {
                        assert(texts(found@)[1] == found@[1]@);
                    }
                }
                match lookup(data, path.as_str()) {
                    None => {},
                    Some(v) => {
                        let text = string_of_value(v);
                        raw.append(text.as_str());
                        if found.len() == 2 {
                            masked.append("****");
                        } else {
                            masked.append(text.as_str());
                        }
                    },
                }
                proof {
                    let s_raw = substitute(body, data@, false);
                    let s_masked = substitute(body, data@, true);
                    assert(raw@ =~= raw_before + s_raw);
                    assert(masked@ =~= masked_before + s_masked);
                    assert(raw_before + (s_raw + expand_from(t@, data@, false, e as int)) =~= (
                    raw_before + s_raw) + expand_from(t@, data@, false, e as int));
                    assert(masked_before + (s_masked + expand_from(t@, data@, true, e as int)) =~= (
                    masked_before + s_masked) + expand_from(t@, data@, true, e as int));
                }
                i = e;
            },
            None => {
                raw.push(t[i]);
                masked.push(t[i]);
                proof {
                    assert(raw_before + (seq![t@[i as int]] + expand_from(
                        t@,
                        data@,
                        false,
                        i + 1,
                    )) =~= raw_before.push(t@[i as int]) + expand_from(t@, data@, false, i + 1));
                    assert(masked_before + (seq![t@[i as int]] + expand_from(
                        t@,
                        data@,
                        true,
                        i + 1,
                    )) =~= masked_before.push(t@[i as int]) + expand_from(t@, data@, true, i + 1));
                }
                i += 1;
            },
        }
    }
    assert(raw@ + expand_from(t@, data@, false, i as int) =~= raw@);
    assert(masked@ + expand_from(t@, data@, true, i as int) =~= masked@);
    Ok(CompiledString { raw, masked })
}

} // verus!
