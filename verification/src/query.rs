//! The AND-of-OR query group: an ordered, non-empty sequence of compiled
//! patterns.  A text satisfies the group exactly when every pattern matches
//! somewhere in it.

use vstd::prelude::*;
use vstd::string::StringSliceAdditionalSpecFns;
use crate::compiler::or_pattern;
use crate::pattern::{
    CompiledPattern, compile_pattern, pattern_find, pattern_is_match, regex_compiles, regex_find,
    regex_matches,
};

verus! {

/// Why a query group could not be built.
#[derive(PartialEq, Eq, Structural, Clone, Copy, Debug)]
pub enum QueryError {
    /// The AND-of-OR list was empty: there is nothing to search for.
    EmptyQuery,
    /// The regex engine rejected a compiled pattern source.  All sources are
    /// escaped by construction, so this marks an internal fault.
    InvalidPattern,
}

/// An AND of patterns, each pattern the OR of the compiled atoms of one
/// inner list of the query description.
pub struct QueryGroup {
    patterns: Vec<CompiledPattern>,
}

impl View for QueryGroup {
    type V = Seq<Seq<char>>;

    closed spec fn view(&self) -> Seq<Seq<char>> {
        self.patterns@.map_values(|p: CompiledPattern| p@)
    }
}

/// Whether `text` satisfies every pattern of the sequence.
pub open spec fn group_matches(patterns: Seq<Seq<char>>, text: Seq<char>) -> bool {
    forall|i: int| 0 <= i < patterns.len() ==> regex_matches(patterns[i], text)
}

impl QueryGroup {
    /// A query group always holds at least one pattern.
    pub open spec fn wf(&self) -> bool {
        self@.len() >= 1
    }

    /// Builds the group from an AND-of-OR query description: one compiled
    /// pattern per inner list, in order, each the alternation of the inner
    /// list's compiled atoms.  Fails exactly on an empty outer list, or when
    /// the regex engine rejects a source (an internal fault that escaping
    /// rules out by construction).
    pub fn new(and_of_or_atoms: Vec<Vec<String>>) -> (r: Result<QueryGroup, QueryError>)
        ensures
            and_of_or_atoms@.len() == 0 <==> r == Err::<QueryGroup, QueryError>(
                QueryError::EmptyQuery,
            ),
            r is Ok <==> (and_of_or_atoms@.len() > 0 && forall|i: int|
                0 <= i < and_of_or_atoms@.len() ==> regex_compiles(
                    or_pattern(#[trigger] and_of_or_atoms.deep_view()[i]),
                )),
            r matches Ok(g) ==> {
                &&& g.wf()
                &&& g@.len() == and_of_or_atoms@.len()
                &&& forall|i: int|
                    0 <= i < g@.len() ==> g@[i] == or_pattern(and_of_or_atoms.deep_view()[i])
            },
            and_of_or_atoms@.len() > 0 && r is Err ==> r == Err::<QueryGroup, QueryError>(
                QueryError::InvalidPattern,
            ),
    {
        if and_of_or_atoms.len() == 0 {
            return Err(QueryError::EmptyQuery);
        }
        let ghost dv = and_of_or_atoms.deep_view();
        let mut patterns: Vec<CompiledPattern> = Vec::new();
        let mut i: usize = 0;
        while i < and_of_or_atoms.len()
            invariant
                dv == and_of_or_atoms.deep_view(),
                dv.len() == and_of_or_atoms@.len(),
                forall|j: int| 0 <= j < dv.len() ==> dv[j] == and_of_or_atoms@[j].deep_view(),
                i <= and_of_or_atoms@.len(),
                patterns@.len() == i,
                forall|j: int|
                    0 <= j < i ==> #[trigger] patterns@[j]@ == or_pattern(dv[j]),
                forall|j: int| 0 <= j < i ==> regex_compiles(or_pattern(#[trigger] dv[j])),
            decreases and_of_or_atoms@.len() - i,
        {
            let source = crate::compiler::compile_or_group(&and_of_or_atoms[i]);
            match compile_pattern(source) {
                Some(p) => {
                    patterns.push(p);
                },
                None => {
                    proof {
                        assert(!regex_compiles(
                            or_pattern(and_of_or_atoms.deep_view()[i as int]),
                        ));
                    }
                    return Err(QueryError::InvalidPattern);
                },
            }
            i = i + 1;
        }
        let g = QueryGroup { patterns };
        proof {
            assert(forall|j: int|
                0 <= j < g@.len() ==> g@[j] == #[trigger] g.patterns@[j]@);
        }
        Ok(g)
    }

    /// How many patterns the group holds.
    pub fn pattern_count(&self) -> (r: usize)
        ensures
            r == self@.len(),
    {
        self.patterns.len()
    }

    /// The byte range of the leftmost match of the group's leading pattern
    /// in `text`, or `None` when the leading pattern does not match.
    pub(crate) fn find_leading(&self, text: &str) -> (r: Option<(usize, usize)>)
        requires
            self@.len() > 0,
        ensures
            r is Some <==> regex_matches(self@[0], text@),
            r matches Some(m) ==> {
                &&& regex_find(self@[0], text@) == Some((m.0 as int, m.1 as int))
                &&& m.0 <= m.1 <= text.spec_bytes().len()
            },
            r is None ==> regex_find(self@[0], text@) is None,
    {
        proof {
            assert(self@[0] == self.patterns@[0]@);
        }
        pattern_find(&self.patterns[0], text)
    }

    /// Whether every pattern past the leading one matches somewhere in
    /// `text`.
    pub(crate) fn rest_matches(&self, text: &str) -> (r: bool)
        ensures
            r == forall|i: int| 1 <= i < self@.len() ==> regex_matches(#[trigger] self@[i], text@),
    {
        let n = self.patterns.len();
        let mut i: usize = 1;
        while i < n
            invariant
                n == self.patterns@.len(),
                n == self@.len(),
                1 <= i <= n || (i == 1 && n == 0),
                forall|j: int| 1 <= j < i ==> regex_matches(#[trigger] self@[j], text@),
                forall|j: int| 0 <= j < n ==> self@[j] == #[trigger] self.patterns@[j]@,
            decreases n - i,
        {
            if !pattern_is_match(&self.patterns[i], text) {
                return false;
            }
            i = i + 1;
        }
        true
    }
}

/// True if and only if `text` satisfies every pattern in the group: the
/// plain match check of the evaluator, usable on any in-memory string.
pub fn matches_text(group: &QueryGroup, text: &str) -> (r: bool)
    ensures
        r == group_matches(group@, text@),
{
    let n = group.patterns.len();
    let mut i: usize = 0;
    while i < n
        invariant
            n == group.patterns@.len(),
            n == group@.len(),
            i <= n,
            forall|j: int| 0 <= j < i ==> regex_matches(#[trigger] group@[j], text@),
            forall|j: int| 0 <= j < n ==> group@[j] == #[trigger] group.patterns@[j]@,
        decreases n - i,
    {
        if !pattern_is_match(&group.patterns[i], text) {
            return false;
        }
        i = i + 1;
    }
    true
}

} // verus!
