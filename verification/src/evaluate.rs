//! The match evaluator: decides, for one text, whether it satisfies a query
//! group, and in the context-aware variant derives a snippet around the
//! first match of the group's leading pattern.

use vstd::prelude::*;
use vstd::string::StringSliceAdditionalSpecFns;
use vstd::utf8::{decode_utf8, encode_utf8};
use crate::query::{QueryGroup, group_matches, matches_text};
use crate::pattern::{regex_find, regex_matches};
use crate::window::{approx_substring, window_bytes};

verus! {

/// One candidate text: its path and, when it could be read, its contents.
/// A file whose contents are absent (unreadable, or not valid UTF-8) never
/// matches.
pub struct TextFile {
    pub path: String,
    pub contents: Option<String>,
}

/// The mathematical value of a [`TextFile`].
pub struct TextFileView {
    pub path: Seq<char>,
    pub contents: Option<Seq<char>>,
}

impl View for TextFile {
    type V = TextFileView;

    open spec fn view(&self) -> TextFileView {
        TextFileView {
            path: self.path@,
            contents: match self.contents {
                Some(c) => Some(c@),
                None => None,
            },
        }
    }
}

/// One positive result: the path that matched and, when context extraction
/// was requested, the snippet around the leading pattern's first match.
pub struct FileMatchResult {
    pub path: String,
    pub context: Option<String>,
}

/// The mathematical value of a [`FileMatchResult`].
pub struct FileMatchView {
    pub path: Seq<char>,
    pub context: Option<Seq<char>>,
}

impl View for FileMatchResult {
    type V = FileMatchView;

    open spec fn view(&self) -> FileMatchView {
        FileMatchView {
            path: self.path@,
            context: match self.context {
                Some(c) => Some(c@),
                None => None,
            },
        }
    }
}

/// The view of an optional result.
pub open spec fn match_view(r: Option<FileMatchResult>) -> Option<FileMatchView> {
    match r {
        Some(m) => Some(m@),
        None => None,
    }
}

/// What evaluating one text against a group yields: a plain result exactly
/// when the text is present and satisfies every pattern.
pub open spec fn spec_evaluate(g: Seq<Seq<char>>, f: TextFileView) -> Option<FileMatchView> {
    match f.contents {
        None => None,
        Some(t) => if group_matches(g, t) {
            Some(FileMatchView { path: f.path, context: None })
        } else {
            None
        },
    }
}

/// The snippet derived from a leading match at byte range `[ms, me)`: the
/// requested radii are applied, clamped to the text, and the window is made
/// UTF-8-safe.
pub open spec fn spec_context(t: Seq<char>, ms: int, me: int, a: int, b: int) -> Seq<char> {
    let bytes = encode_utf8(t);
    let lo = if ms < a {
        0
    } else {
        ms - a
    };
    let hi = if me + b > bytes.len() {
        bytes.len() as int
    } else {
        me + b
    };
    decode_utf8(window_bytes(bytes, lo, hi))
}

/// What the context-aware evaluation of one text yields: a result exactly
/// when the text is present, its leading pattern matches, and every further
/// pattern matches too; the context comes from the leading match alone.
pub open spec fn spec_evaluate_context(
    g: Seq<Seq<char>>,
    f: TextFileView,
    a: int,
    b: int,
) -> Option<FileMatchView> {
    match f.contents {
        None => None,
        Some(t) => if g.len() == 0 {
            Some(FileMatchView { path: f.path, context: None })
        } else {
            match regex_find(g[0], t) {
                None => None,
                Some(m) => if forall|i: int| 1 <= i < g.len() ==> regex_matches(#[trigger] g[i], t) {
                    Some(
                        FileMatchView {
                            path: f.path,
                            context: Some(spec_context(t, m.0, m.1, a, b)),
                        },
                    )
                } else {
                    None
                },
            }
        },
    }
}

/// Evaluates one text against the group: a result exactly when the text is
/// present and satisfies every pattern; no context is extracted.
pub fn evaluate_text(group: &QueryGroup, file: &TextFile) -> (r: Option<FileMatchResult>)
    ensures
        match_view(r) == spec_evaluate(group@, file@),
{
    match &file.contents {
        None => None,
        Some(contents) => {
            if matches_text(group, contents.as_str()) {
                Some(FileMatchResult { path: file.path.clone(), context: None })
            } else {
                None
            }
        },
    }
}

/// Evaluates one text against the group with context extraction: locates
/// the first match of the leading pattern, requires every further pattern
/// to match, and windows the text around the leading match by the byte
/// radii `before` and `after`.
pub fn evaluate_text_context(
    group: &QueryGroup,
    file: &TextFile,
    before: usize,
    after: usize,
) -> (r: Option<FileMatchResult>)
    ensures
        match_view(r) == spec_evaluate_context(group@, file@, before as int, after as int),
{
    match &file.contents {
        None => None,
        Some(contents) => {
            if group.pattern_count() == 0 {
                return Some(FileMatchResult { path: file.path.clone(), context: None });
            }
            let text = contents.as_str();
            let byte_view = text.as_bytes();
            proof {
                vstd::slice::axiom_spec_len(byte_view);
                assert(text.spec_bytes().len() <= usize::MAX);
            }
            match group.find_leading(text) {
                None => None,
                Some(m) => {
                    let len: usize = text.len();
                    let lo: usize = if m.0 < before {
                        0
                    } else {
                        m.0 - before
                    };
                    let hi: usize = if after > len - m.1 {
                        len
                    } else {
                        m.1 + after
                    };
                    let snippet = approx_substring(text, lo, hi);
                    if group.rest_matches(text) {
                        Some(
                            FileMatchResult {
                                path: file.path.clone(),
                                context: Some(snippet.to_owned()),
                            },
                        )
                    } else {
                        None
                    }
                },
            }
        },
    }
}

} // verus!
