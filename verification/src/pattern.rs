//! Regular-expression scanning, done by the `regex` crate.
use vstd::prelude::*;

verus! {

/// One match of a pattern: the text between the previous match (or the start)
/// and this one, the matched text, and the text of the first capture group.
pub struct RegexMatch {
    pub before: String,
    pub whole: String,
    pub group: Option<String>,
}

/// All successive non-overlapping matches of a pattern, and the text after the last one.
pub struct RegexScan {
    pub matches: Vec<RegexMatch>,
    pub rest: String,
}

pub struct RegexMatchV {
    pub before: Seq<char>,
    pub whole: Seq<char>,
    pub group: Option<Seq<char>>,
}

pub struct RegexScanV {
    pub matches: Seq<RegexMatchV>,
    pub rest: Seq<char>,
}

impl View for RegexMatch {
    type V = RegexMatchV;

    open spec fn view(&self) -> RegexMatchV {
        RegexMatchV {
            before: self.before@,
            whole: self.whole@,
            group: match self.group {
                Some(g) => Some(g@),
                None => None,
            },
        }
    }
}

impl View for RegexScan {
    type V = RegexScanV;

    open spec fn view(&self) -> RegexScanV {
        RegexScanV { matches: self.matches@.map_values(|m: RegexMatch| m@), rest: self.rest@ }
    }
}

/// What scanning `text` with the regular expression `pattern` finds, as the
/// `regex` crate's `Regex::captures_iter` reports it (leftmost-first matching,
/// successive non-overlapping matches); no matches when the pattern does not compile.
pub uninterp spec fn regex_scan_of(pattern: Seq<char>, text: Seq<char>) -> RegexScanV;

/// Scans `text` with `pattern` through `regex::Regex::captures_iter`, cutting
/// `text` at the match boundaries. Trusted: the result is the named scan
/// `regex_scan_of`; nothing more is claimed about it.
#[verifier::external_body]
pub(crate) fn regex_scan(pattern: &str, text: &str) -> (r: RegexScan)
    ensures
        r@ == regex_scan_of(pattern@, text@),
{
    let mut matches = Vec::new();
    let mut last: usize = 0;
    if let Ok(re) = regex::Regex::new(pattern) {
        for caps in re.captures_iter(text) {
            let Some(whole) = caps.get(0) else { continue };
            let group = caps.get(1).map(|g| g.as_str().to_string());
            matches.push(RegexMatch { before: text[last..whole.start()].to_string(), whole: whole.as_str().to_string(), group });
            last = whole.end();
        }
    }
    RegexScan { matches, rest: text[last..].to_string() }
}

} // verus!
