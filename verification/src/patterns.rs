//! Regular expressions, compiled and run by the regex crate.
use vstd::prelude::*;

verus! {

/// The regular expression type of the regex crate.
#[verifier::external_type_specification]
#[verifier::external_body]
pub struct ExRegex(regex::Regex);

/// Name of whether a pattern is a regular expression the regex crate accepts.
pub uninterp spec fn pattern_compiles(pattern: Seq<char>) -> bool;

/// Name of whether the regular expression `pattern` matches somewhere in `text`.
pub uninterp spec fn pattern_matches(pattern: Seq<char>, text: Seq<char>) -> bool;

/// A compiled regular expression, with the text it was compiled from.
pub struct Pattern {
    source: String,
    compiled: regex::Regex,
}

impl Pattern {
    pub closed spec fn source(&self) -> Seq<char> {
        self.source@
    }
}

/// `regex::Regex::new(source)`: the pattern compiled, or none where the
/// crate refuses it (a syntax error, or a pattern over its size limits).
/// Whether it is accepted depends on the text alone, named `pattern_compiles`.
#[verifier::external_body]
pub(crate) fn compile(source: &str) -> (r: Option<Pattern>)
    ensures
        r is Some <==> pattern_compiles(source@),
        r matches Some(p) ==> p.source() == source@,
{
    match regex::Regex::new(source) {
        Ok(re) => Some(Pattern { source: source.to_string(), compiled: re }),
        Err(_) => None,
    }
}

/// `Regex::is_match`: whether the pattern matches anywhere in `text`.  The
/// answer depends on the pattern's text and `text` alone, named
/// `pattern_matches`.
#[verifier::external_body]
pub(crate) fn is_match(p: &Pattern, text: &str) -> (b: bool)
    ensures
        b == pattern_matches(p.source(), text@),
{
    p.compiled.is_match(text)
}

/// Name of the text of a named group where `pattern` matches `text`: none
/// when it does not match; some none when it matches without the group
/// taking part.
pub uninterp spec fn pattern_capture(pattern: Seq<char>, text: Seq<char>, group: Seq<char>) -> Option<Option<Seq<char>>>;

/// `Regex::captures(text)` and then `name(group)`: the text of the named
/// group in the leftmost-first match, if the pattern matches.  The result
/// depends on the pattern's text, `text` and `group` alone, named
/// `pattern_capture`.
#[verifier::external_body]
pub(crate) fn capture(p: &Pattern, text: &str, group: &str) -> (r: Option<Option<String>>)
    ensures
        match r {
            None => pattern_capture(p.source(), text@, group@) is None,
            Some(None) => pattern_capture(p.source(), text@, group@) == Some(None::<Seq<char>>),
            Some(Some(s)) => pattern_capture(p.source(), text@, group@) == Some(Some(s@)),
        },
{
    match p.compiled.captures(text) {
        None => None,
        Some(c) => Some(c.name(group).map(|m| m.as_str().to_string())),
    }
}

} // verus!
