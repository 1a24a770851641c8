//! The scanner: evaluates a query group against an ordered collection of
//! candidate texts, sequentially or in parallel.  Each text is processed
//! independently; only positive results are collected.  In sequential mode
//! the output keeps the input order; in parallel mode only the collection's
//! membership is fixed.

use vstd::prelude::*;
use rayon::iter::{IntoParallelRefIterator, ParallelIterator};
use crate::evaluate::{
    FileMatchResult, FileMatchView, TextFile, TextFileView, evaluate_text, evaluate_text_context,
    spec_evaluate, spec_evaluate_context,
};
use crate::query::QueryGroup;

verus! {

/// The views of a sequence of texts.
pub open spec fn file_views(fs: Seq<TextFile>) -> Seq<TextFileView> {
    fs.map_values(|f: TextFile| f@)
}

/// The views of a sequence of results.
pub open spec fn result_views(rs: Seq<FileMatchResult>) -> Seq<FileMatchView> {
    rs.map_values(|m: FileMatchResult| m@)
}

/// The results of evaluating each text in order and keeping the positive
/// outcomes.
pub open spec fn spec_filter_map(
    fs: Seq<TextFileView>,
    ev: spec_fn(TextFileView) -> Option<FileMatchView>,
) -> Seq<FileMatchView>
    decreases fs.len(),
{
    if fs.len() == 0 {
        Seq::empty()
    } else {
        let rest = spec_filter_map(fs.drop_first(), ev);
        match ev(fs[0]) {
            Some(m) => seq![m] + rest,
            None => rest,
        }
    }
}

/// What a plain scan of `fs` against `g` yields, in input order.
pub open spec fn spec_scan(g: Seq<Seq<char>>, fs: Seq<TextFileView>) -> Seq<FileMatchView> {
    spec_filter_map(fs, |f: TextFileView| spec_evaluate(g, f))
}

/// What a context-aware scan of `fs` against `g` yields, in input order.
pub open spec fn spec_scan_context(
    g: Seq<Seq<char>>,
    fs: Seq<TextFileView>,
    a: int,
    b: int,
) -> Seq<FileMatchView> {
    spec_filter_map(fs, |f: TextFileView| spec_evaluate_context(g, f, a, b))
}

pub proof fn lemma_spec_filter_map_snoc(
    fs: Seq<TextFileView>,
    ev: spec_fn(TextFileView) -> Option<FileMatchView>,
    f: TextFileView,
)
    ensures
        spec_filter_map(fs.push(f), ev) == spec_filter_map(fs, ev) + (match ev(f) {
            Some(m) => seq![m],
            None => Seq::<FileMatchView>::empty(),
        }),
    decreases fs.len(),
{
    reveal_with_fuel(spec_filter_map, 2);
    if fs.len() == 0 {
        assert(fs.push(f)[0] == f);
        assert(fs.push(f).drop_first() =~= Seq::<TextFileView>::empty());
        assert(spec_filter_map(fs.push(f), ev) =~= spec_filter_map(fs, ev) + (match ev(f) {
            Some(m) => seq![m],
            None => Seq::<FileMatchView>::empty(),
        }));
    } else {
        assert(fs.push(f)[0] == fs[0]);
        assert(fs.push(f).drop_first() =~= fs.drop_first().push(f));
        lemma_spec_filter_map_snoc(fs.drop_first(), ev, f);
        assert(spec_filter_map(fs.push(f), ev) =~= spec_filter_map(fs, ev) + (match ev(f) {
            Some(m) => seq![m],
            None => Seq::<FileMatchView>::empty(),
        }));
    }
}

/// Relies on rayon's `par_iter`, `filter_map` and `collect`: the collection
/// holds exactly the positive per-text results, each text evaluated once,
/// with no promise about their order.
#[verifier::external_body]
fn par_scan(group: &QueryGroup, files: &Vec<TextFile>) -> (r: Vec<FileMatchResult>)
    ensures
        result_views(r@).to_multiset() == spec_scan(group@, file_views(files@)).to_multiset(),
{
    files.par_iter().filter_map(|f| evaluate_text(group, f)).collect()
}

/// Relies on rayon's `par_iter`, `filter_map` and `collect`: the collection
/// holds exactly the positive per-text results, each text evaluated once,
/// with no promise about their order.
#[verifier::external_body]
fn par_scan_context(
    group: &QueryGroup,
    files: &Vec<TextFile>,
    before: usize,
    after: usize,
) -> (r: Vec<FileMatchResult>)
    ensures
        result_views(r@).to_multiset() == spec_scan_context(
            group@,
            file_views(files@),
            before as int,
            after as int,
        ).to_multiset(),
{
    files.par_iter().filter_map(|f| evaluate_text_context(group, f, before, after)).collect()
}

/// Scans every text and collects the matches, without context extraction.
///
/// The members of the result are the same in either mode; sequential
/// execution additionally keeps the input order.
pub fn search_text(group: &QueryGroup, files: &Vec<TextFile>, parallel: bool) -> (r: Vec<
    FileMatchResult,
>)
    ensures
        result_views(r@).to_multiset() == spec_scan(group@, file_views(files@)).to_multiset(),
        !parallel ==> result_views(r@) == spec_scan(group@, file_views(files@)),
{
    if parallel {
        par_scan(group, files)
    } else {
        let ghost fv = file_views(files@);
        let ghost ev = |f: TextFileView| spec_evaluate(group@, f);
        let mut out: Vec<FileMatchResult> = Vec::new();
        let mut i: usize = 0;
        proof {
            assert(fv.take(0) =~= Seq::<TextFileView>::empty());
            assert(result_views(out@) =~= Seq::<FileMatchView>::empty());
        }
        while i < files.len()
            invariant
                fv == file_views(files@),
                ev == (|f: TextFileView| spec_evaluate(group@, f)),
                fv.len() == files@.len(),
                i <= files@.len(),
                result_views(out@) == spec_filter_map(fv.take(i as int), ev),
            decreases files@.len() - i,
        {
            let m = evaluate_text(group, &files[i]);
            proof {
                assert(fv.take(i + 1) =~= fv.take(i as int).push(fv[i as int]));
                lemma_spec_filter_map_snoc(fv.take(i as int), ev, fv[i as int]);
                assert(fv[i as int] == files@[i as int]@);
            }
            match m {
                Some(res) => {
                    out.push(res);
                    proof {
                        assert(result_views(out@) =~= spec_filter_map(fv.take(i + 1), ev));
                    }
                },
                None => {
                    proof {
                        assert(result_views(out@) =~= spec_filter_map(fv.take(i + 1), ev));
                    }
                },
            }
            i = i + 1;
        }
        proof {
            assert(fv.take(files@.len() as int) =~= fv);
        }
        out
    }
}

/// Scans every text and collects the matches, windowing each matching text
/// around the first match of the group's leading pattern by the byte radii
/// `before` and `after`.
pub fn search_text_context(
    group: &QueryGroup,
    files: &Vec<TextFile>,
    before: usize,
    after: usize,
    parallel: bool,
) -> (r: Vec<FileMatchResult>)
    ensures
        result_views(r@).to_multiset() == spec_scan_context(
            group@,
            file_views(files@),
            before as int,
            after as int,
        ).to_multiset(),
        !parallel ==> result_views(r@) == spec_scan_context(
            group@,
            file_views(files@),
            before as int,
            after as int,
        ),
{
    if parallel {
        par_scan_context(group, files, before, after)
    } else {
        let ghost fv = file_views(files@);
        let ghost ev = |f: TextFileView| spec_evaluate_context(
            group@,
            f,
            before as int,
            after as int,
        );
        let mut out: Vec<FileMatchResult> = Vec::new();
        let mut i: usize = 0;
        proof {
            assert(fv.take(0) =~= Seq::<TextFileView>::empty());
            assert(result_views(out@) =~= Seq::<FileMatchView>::empty());
        }
        while i < files.len()
            invariant
                fv == file_views(files@),
                ev == (|f: TextFileView| spec_evaluate_context(
                    group@,
                    f,
                    before as int,
                    after as int,
                )),
                fv.len() == files@.len(),
                i <= files@.len(),
                result_views(out@) == spec_filter_map(fv.take(i as int), ev),
            decreases files@.len() - i,
        {
            let m = evaluate_text_context(group, &files[i], before, after);
            proof {
                assert(fv.take(i + 1) =~= fv.take(i as int).push(fv[i as int]));
                lemma_spec_filter_map_snoc(fv.take(i as int), ev, fv[i as int]);
                assert(fv[i as int] == files@[i as int]@);
            }
            match m {
                Some(res) => {
                    out.push(res);
                    proof {
                        assert(result_views(out@) =~= spec_filter_map(fv.take(i + 1), ev));
                    }
                },
                None => {
                    proof {
                        assert(result_views(out@) =~= spec_filter_map(fv.take(i + 1), ev));
                    }
                },
            }
            i = i + 1;
        }
        proof {
            assert(fv.take(files@.len() as int) =~= fv);
        }
        out
    }
}

} // verus!
