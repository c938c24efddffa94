//! The short inline text used when a value is placed inside a template.
use vstd::prelude::*;
use crate::json::{Json, JsonV};
use crate::text::owned;
use crate::raw::{RawJson, raw_from_json};

verus! {

/// What `serde_json::to_string` writes for `v` (compact JSON), or the message
/// of its error.
pub uninterp spec fn compact_json_of(v: JsonV) -> Result<Seq<char>, Seq<char>>;

/// Writes `v` with `serde_json::to_string`. Trusted: the result is the named
/// text `compact_json_of`.
#[verifier::external_body]
fn compact_json(v: &RawJson) -> (r: Result<String, String>)
    ensures
        match r {
            Ok(s) => compact_json_of(v@) == Ok::<Seq<char>, Seq<char>>(s@),
            Err(m) => compact_json_of(v@) == Err::<Seq<char>, Seq<char>>(m@),
        },
{
    serde_json::to_string(&crate::formats::value_from_raw(v)).map_err(|e| e.to_string())
}

/// A value as it appears when spliced into text: strings as they are, `null`
/// as the word, everything else as compact JSON (`null` should writing fail).
pub open spec fn inline_text(v: JsonV) -> Seq<char> {
    match v {
        JsonV::Str(s) => s,
        JsonV::Null => "null"@,
        _ => match compact_json_of(v) {
            Ok(t) => t,
            Err(_) => "null"@,
        },
    }
}

/// The text a value contributes when spliced into a template.
pub fn json_to_inline_string(v: &Json) -> (r: String)
    ensures
        r@ == inline_text(v@),
{
    match v {
        Json::Str(s) => s.clone(),
        Json::Null => owned("null"),
        _ => match compact_json(&raw_from_json(v)) {
            Ok(t) => t,
            Err(_) => owned("null"),
        },
    }
}

} // verus!
