//! The regex that finds a segment path on a playlist line, kept with the text it was
//! compiled from.
use vstd::prelude::*;
use regex::Regex;

verus! {

#[verifier::external_type_specification]
#[verifier::external_body]
pub struct ExRegex(Regex);

#[verifier::external_type_specification]
#[verifier::external_body]
pub struct ExRegexError(regex::Error);

/// The pattern that picks a segment path out of a playlist line: an optional quote,
/// then the path (a run of characters other than `"` that ends in `.ts`), then an
/// optional quote. Group 1 is the path.
pub const TS_SEGMENT_PATTERN: &'static str = r#"(?:")?([^"]+\.ts)(?:")?"#;

/// Whether `regex::Regex::new` builds a regex from `pattern` (it refuses a pattern that is
/// invalid or that would exceed its default size limit).
pub uninterp spec fn regex_accepts(pattern: Seq<char>) -> bool;

/// The text of capture group 1 in the first match of `pattern` in `haystack`
/// (`Regex::captures`, then `Captures::get(1)`), or `None` where there is no match or
/// the group takes no part in it.
pub uninterp spec fn regex_first_group(pattern: Seq<char>, haystack: Seq<char>) -> Option<Seq<char>>;

/// Why a playlist could not be read.
#[derive(Debug, Clone, Copy, PartialEq, Eq)]
pub enum ParseError {
    /// The segment pattern did not compile.
    InvalidPattern,
}

/// A compiled pattern together with the text it was compiled from. Only `compile_pattern`
/// builds one, so each holds the regex compiled from its own `source`.
pub struct SegmentPattern {
    regex: Regex,
    source: String,
}

impl SegmentPattern {
    /// The text the pattern was compiled from.
    pub closed spec fn source(&self) -> Seq<char> {
        self.source@
    }

    /// Compiles `pattern`.
    pub fn compile(pattern: &str) -> (r: Result<SegmentPattern, ParseError>)
        ensures
            r is Ok <==> regex_accepts(pattern@),
            r matches Ok(p) ==> p.source() == pattern@,
    {
        match compile_pattern(pattern) {
            Ok(p) => Ok(p),
            Err(_) => Err(ParseError::InvalidPattern),
        }
    }
}

/// Calls `regex::Regex::new` and keeps the pattern's text beside the regex. Claimed: it
/// succeeds exactly when `regex_accepts` holds of the pattern, which is a property of the
/// pattern alone, and the result's `source` is the pattern.
#[verifier::external_body]
fn compile_pattern(pattern: &str) -> (r: Result<SegmentPattern, regex::Error>)
    ensures
        r is Ok <==> regex_accepts(pattern@),
        r matches Ok(p) ==> p.source() == pattern@,
{
    let regex = Regex::new(pattern)?;
    Ok(SegmentPattern { regex, source: pattern.to_string() })
}

/// Calls `Regex::captures` on `line`, then `Captures::get(1)` and `Match::as_str`.
/// Claimed: the text returned is `regex_first_group` of the pattern's source and the line.
/// Every `SegmentPattern` holds the regex compiled from its own `source`, since
/// `compile_pattern` is the only place that builds one.
#[verifier::external_body]
pub(crate) fn first_group(pattern: &SegmentPattern, line: &str) -> (r: Option<String>)
    ensures
        match r {
            Some(g) => regex_first_group(pattern.source(), line@) == Some(g@),
            None => regex_first_group(pattern.source(), line@) is None,
        },
{
    let caps = pattern.regex.captures(line)?;
    Some(caps.get(1)?.as_str().to_string())
}

} // verus!
