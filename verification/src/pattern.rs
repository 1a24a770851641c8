//! The compiled pattern: a regex built from a pattern source with the fixed
//! flag set (multi-line anchoring, case-insensitive, `.` never matching line
//! terminators).
//!
//! The regex engine itself is an outside collaborator.  Its behaviour on a
//! given pattern source and text is named by the uninterpreted functions
//! [`regex_matches`] and [`regex_find`]; the few trusted wrappers below are
//! the only places where those names are tied to the engine.

use vstd::prelude::*;
use vstd::string::StringSliceAdditionalSpecFns;
use regex::RegexBuilder;

verus! {

#[verifier::external_type_specification]
#[verifier::external_body]
pub struct ExRegex(regex::Regex);

/// Whether the regex compiled from `pattern` under the fixed flag set
/// (multi-line, case-insensitive, non-dotall) matches somewhere in `text`.
/// The result depends on the pattern source and the text alone.
pub uninterp spec fn regex_matches(pattern: Seq<char>, text: Seq<char>) -> bool;

/// The byte range, within the UTF-8 encoding of `text`, of the leftmost
/// match of the regex compiled from `pattern` under the fixed flag set;
/// `None` when there is no match.
pub uninterp spec fn regex_find(pattern: Seq<char>, text: Seq<char>) -> Option<(int, int)>;

/// Whether the engine accepts `source` as a pattern, under the fixed flag
/// set and the engine's default limits.  Acceptance depends on the source
/// text alone.
pub uninterp spec fn regex_compiles(source: Seq<char>) -> bool;

/// A pattern source together with the regex the engine compiled from it
/// under the fixed flag set.  The two fields never part ways: the only
/// constructor is [`compile_pattern`].
pub struct CompiledPattern {
    source: String,
    regex: regex::Regex,
}

impl View for CompiledPattern {
    type V = Seq<char>;

    closed spec fn view(&self) -> Seq<char> {
        self.source@
    }
}

/// Relies on `regex::RegexBuilder`: `build` compiles exactly the given
/// source, with multi-line on, case-insensitive on and dot-matches-new-line
/// off; whether it succeeds depends on the source text alone, and `Err`
/// comes exactly when the engine rejects the source.
#[verifier::external_body]
pub(crate) fn compile_pattern(source: String) -> (r: Option<CompiledPattern>)
    ensures
        r is Some <==> regex_compiles(source@),
        r matches Some(p) ==> p@ == source@,
{
    let built = RegexBuilder::new(&source)
        .multi_line(true)
        .case_insensitive(true)
        .dot_matches_new_line(false)
        .build();
    match built {
        Ok(regex) => Some(CompiledPattern { source, regex }),
        Err(_) => None,
    }
}

/// Relies on `regex::Regex::is_match`: true if and only if the regex matches
/// somewhere in `text`; deterministic in the pattern source and the text.
#[verifier::external_body]
pub(crate) fn pattern_is_match(p: &CompiledPattern, text: &str) -> (r: bool)
    ensures
        r == regex_matches(p@, text@),
{
    p.regex.is_match(text)
}

/// Relies on `regex::Regex::find`: returns the byte offsets of the leftmost
/// match, `Some` if and only if `is_match` would be true; the offsets lie
/// within the text.
#[verifier::external_body]
pub(crate) fn pattern_find(p: &CompiledPattern, text: &str) -> (r: Option<(usize, usize)>)
    ensures
        r is Some <==> regex_matches(p@, text@),
        r matches Some(m) ==> {
            &&& regex_find(p@, text@) == Some((m.0 as int, m.1 as int))
            &&& m.0 <= m.1 <= text.spec_bytes().len()
        },
        r is None ==> regex_find(p@, text@) is None,
{
    match p.regex.find(text) {
        Some(m) => Some((m.start(), m.end())),
        None => None,
    }
}

} // verus!
