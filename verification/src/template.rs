//! Template rendering, done by the `handlebars` crate.
use vstd::prelude::*;
use crate::json::JsonV;
use crate::raw::RawJson;

verus! {

/// White space, `~` and `#`: what may stand between `{{` and the `>` of a
/// partial or the `*` of a decorator in handlebars syntax.
pub open spec fn tag_lead_char(c: char) -> bool {
    c == ' ' || c == '\t' || c == '\n' || c == '\r' || c == '~' || c == '#'
}

/// At position `i` a tag `{{` opens that is a partial (`>`) or a decorator
/// (`*`, such as an inline partial definition), whose sign stands at `k`.
pub open spec fn opens_partial(t: Seq<char>, i: int, k: int) -> bool {
    &&& 0 <= i
    &&& i + 2 <= k < t.len()
    &&& t[i] == '{'
    &&& t[i + 1] == '{'
    &&& forall|j: int| i + 2 <= j < k ==> tag_lead_char(#[trigger] t[j])
    &&& (t[k] == '>' || t[k] == '*')
}

/// A template without partials and decorators. Only such templates are
/// handed to handlebars: a partial that includes itself makes its renderer
/// recurse without end.
pub open spec fn partial_free(t: Seq<char>) -> bool {
    forall|i: int, k: int| !opens_partial(t, i, k)
}

/// Whether `t` is free of partials and decorators.
pub fn is_partial_free(t: &str) -> (r: bool)
    ensures
        r == partial_free(t@),
{
    let cs = crate::json::chars_of(t);
    let n = cs.len();
    let mut i: usize = 0;
    while i < n && i + 1 < n
        invariant
            cs@ == t@,
            n == cs.len(),
            i <= n,
            forall|a: int, k: int| 0 <= a < i ==> !opens_partial(t@, a, k),
        decreases n - i,
    {
        if cs[i] == '{' && cs[i + 1] == '{' {
            let mut j: usize = i + 2;
            while j < n && (cs[j] == ' ' || cs[j] == '\t' || cs[j] == '\n' || cs[j] == '\r' || cs[j] == '~'
                || cs[j] == '#')
                invariant
                    cs@ == t@,
                    n == cs.len(),
                    i + 2 <= j <= n,
                    forall|x: int| i + 2 <= x < j ==> tag_lead_char(#[trigger] t@[x]),
                decreases n - j,
            {
                j = j + 1;
            }
            if j < n && (cs[j] == '>' || cs[j] == '*') {
                assert(opens_partial(t@, i as int, j as int));
                return false;
            }
            assert forall|k: int| !opens_partial(t@, i as int, k) by {
                if opens_partial(t@, i as int, k) {
                    if k > j {
                        assert(tag_lead_char(t@[j as int]));
                    }
                }
            }
        }
        i = i + 1;
    }
    assert forall|a: int, k: int| !opens_partial(t@, a, k) by {
        if opens_partial(t@, a, k) {
            assert(a < i as int);
        }
    }
    true
}

/// What rendering `template` against the data `data` gives with a handlebars
/// registry in strict mode and without HTML escaping; `None` when rendering
/// fails (for example on a missing field in strict mode).
pub uninterp spec fn handlebars_render_of(template: Seq<char>, data: JsonV) -> Option<Seq<char>>;

/// Renders `template` through `handlebars::Handlebars::render_template`, with
/// strict mode on and `no_escape` as the escape function, against `data`
/// converted one for one into a `serde_json::Value`. The template must be
/// free of partials and decorators. Trusted: the result is the named render
/// `handlebars_render_of`.
#[verifier::external_body]
pub(crate) fn render_handlebars(template: &str, data: &RawJson) -> (r: Option<String>)
    requires
        partial_free(template@),
    ensures
        match r {
            Some(s) => handlebars_render_of(template@, data@) == Some(s@),
            None => handlebars_render_of(template@, data@) is None,
        },
{
    let mut hb = handlebars::Handlebars::new();
    hb.set_strict_mode(true);
    hb.register_escape_fn(handlebars::no_escape);
    hb.render_template(template, &crate::formats::value_from_raw(data)).ok()
}

} // verus!
