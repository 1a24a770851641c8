//! Laws of the atom compiler, the query group and the scanner: what the
//! library states of all inputs, proved once and for all.

use vstd::prelude::*;
use crate::compiler::{
    CharClass, CompState, atom_pattern, class_of, commit_out, escape_chars, finalize, init_state,
    is_blank_char, is_han_char, lemma_escape_chars_snoc, lemma_run_snoc, run, sep_plus, sep_star,
    step,
};
use crate::evaluate::{FileMatchView, TextFileView};
use crate::pattern::regex_matches;
use crate::query::group_matches;
use crate::scan::spec_scan;
use crate::window::{
    lemma_boundary_in_prefix, lemma_next_boundary, lemma_prev_boundary, next_boundary,
    prev_boundary, window_bytes,
};
use vstd::utf8::{decode_utf8, encode_utf8};

verus! {

/// Every character of `s` is a blank.
pub open spec fn all_blank(s: Seq<char>) -> bool {
    forall|i: int| 0 <= i < s.len() ==> is_blank_char(#[trigger] s[i])
}

/// The previous-character class is never Blank: blanks are skipped, they do
/// not become the previous character.
proof fn lemma_run_prev_not_blank(st: CompState, s: Seq<char>)
    requires
        st.prev != CharClass::Blank,
    ensures
        run(st, s).prev != CharClass::Blank,
    decreases s.len(),
{
    if s.len() > 0 {
        assert(step(st, s[0]).prev != CharClass::Blank);
        lemma_run_prev_not_blank(step(st, s[0]), s.drop_first());
    }
}

/// Running over a concatenation is running over the parts in turn.
proof fn lemma_run_concat(st: CompState, s1: Seq<char>, s2: Seq<char>)
    ensures
        run(st, s1 + s2) == run(run(st, s1), s2),
    decreases s1.len(),
{
    if s1.len() == 0 {
        assert(s1 + s2 =~= s2);
    } else {
        assert((s1 + s2)[0] == s1[0]);
        assert((s1 + s2).drop_first() =~= s1.drop_first() + s2);
        lemma_run_concat(step(st, s1[0]), s1.drop_first(), s2);
    }
}

/// Running over blanks at most commits the pending word; from the initial
/// class it does nothing at all.
proof fn lemma_run_blanks(st: CompState, b: Seq<char>)
    requires
        all_blank(b),
        st.prev != CharClass::Blank,
    ensures
        run(st, b) == if b.len() == 0 || st.prev == CharClass::Term {
            st
        } else {
            CompState {
                prev: st.prev,
                word: Seq::<char>::empty(),
                committed: true,
                out: commit_out(st),
            }
        },
    decreases b.len(),
{
    if b.len() == 0 {
    } else {
        assert(is_blank_char(b[0]));
        let st1 = step(st, b[0]);
        assert(all_blank(b.drop_first()));
        lemma_run_blanks(st1, b.drop_first());
        if st.prev == CharClass::Term {
            assert(st1 == st);
        } else {
            assert(st1 == CompState {
                prev: st.prev,
                word: Seq::<char>::empty(),
                committed: true,
                out: commit_out(st),
            });
            assert(commit_out(st1) == st1.out);
            assert(run(st1, b.drop_first()) == st1);
        }
    }
}

/// Blank characters at either end of an atom do not affect its pattern.
pub proof fn lemma_strip_blanks(b1: Seq<char>, s: Seq<char>, b2: Seq<char>)
    requires
        all_blank(b1),
        all_blank(b2),
    ensures
        atom_pattern(b1 + s + b2) == atom_pattern(s),
{
    lemma_run_concat(init_state(), b1, s);
    lemma_run_concat(init_state(), b1 + s, b2);
    lemma_run_blanks(init_state(), b1);
    let st = run(init_state(), s);
    lemma_run_prev_not_blank(init_state(), s);
    lemma_run_blanks(st, b2);
    assert(finalize(run(st, b2)) == finalize(st));
}

/// An atom of blanks alone, or the empty atom, compiles to the empty
/// pattern source, which matches any text.
pub proof fn lemma_blank_atom_empty_pattern(s: Seq<char>)
    requires
        all_blank(s),
    ensures
        atom_pattern(s) == Seq::<char>::empty(),
{
    lemma_run_blanks(init_state(), s);
    assert(run(init_state(), s) == init_state());
    assert(escape_chars(Seq::<char>::empty()) == Seq::<char>::empty());
    assert(atom_pattern(s) =~= Seq::<char>::empty());
}

/// Compiling is deterministic: the same atom always yields the textually
/// identical pattern source.
pub proof fn lemma_compile_idempotent(a1: Seq<char>, a2: Seq<char>)
    requires
        a1 == a2,
    ensures
        atom_pattern(a1) == atom_pattern(a2),
{
}

/// After an atom whose last character is significant (not blank), the
/// machine holds an uncommitted, non-empty word of that character's class.
proof fn lemma_run_last_significant(s: Seq<char>)
    requires
        s.len() > 0,
        !is_blank_char(s.last()),
    ensures
        ({
            let st = run(init_state(), s);
            &&& !st.committed
            &&& st.word.len() > 0
            &&& st.prev == class_of(s.last())
        }),
{
    let front = s.drop_last();
    let c = s.last();
    assert(s =~= front.push(c));
    lemma_run_snoc(init_state(), front, c);
    lemma_run_prev_not_blank(init_state(), front);
    let st0 = run(init_state(), front);
    assert(run(init_state(), s) == step(st0, c));
}

/// The machine only ever appends to its output: starting with a longer
/// output yields the same end state but for that prefix.
proof fn lemma_run_out_frame(st: CompState, s: Seq<char>)
    ensures
        ({
            let base = CompState { out: Seq::<char>::empty(), ..st };
            let r = run(st, s);
            let r0 = run(base, s);
            &&& r.prev == r0.prev
            &&& r.word == r0.word
            &&& r.committed == r0.committed
            &&& r.out == st.out + r0.out
        }),
    decreases s.len(),
{
    let base = CompState { out: Seq::<char>::empty(), ..st };
    if s.len() == 0 {
        assert(st.out + Seq::<char>::empty() =~= st.out);
    } else {
        let c = s[0];
        let rest = s.drop_first();
        let sta = step(st, c);
        let stb = step(base, c);
        assert(sta.prev == stb.prev && sta.word == stb.word && sta.committed == stb.committed);
        assert(sta.out =~= st.out + stb.out);
        lemma_run_out_frame(sta, rest);
        lemma_run_out_frame(stb, rest);
        assert(CompState { out: Seq::<char>::empty(), ..sta } == CompState {
            out: Seq::<char>::empty(),
            ..stb
        });
        assert(run(st, s).out =~= st.out + run(base, s).out);
    }
}

/// The separator the compiler puts between two significant characters, as a
/// function of their classes and of whether a blank stood in between.
pub open spec fn junction_sep(cx: CharClass, cy: CharClass, blank_between: bool) -> Seq<char> {
    if cx != cy {
        sep_star()
    } else if blank_between {
        sep_plus()
    } else {
        sep_star()
    }
}

/// The central composition law of the compiler.  For an atom of the shape
/// `x ++ blanks ++ y`, with `x` ending and `y` starting in a significant
/// character, the pattern is the pattern of `x`, a separator, and the
/// pattern of `y`: `\s*` at a script transition, `\s+` within one script
/// when at least one blank stands in between, and `\s*` between two glued
/// CJK characters.  (Two same-script non-CJK characters with no blank in
/// between belong to one literal word and are no junction.)
pub proof fn lemma_compile_junction(x: Seq<char>, b: Seq<char>, y: Seq<char>)
    requires
        x.len() > 0,
        !is_blank_char(x.last()),
        all_blank(b),
        y.len() > 0,
        !is_blank_char(y[0]),
        b.len() > 0 || class_of(x.last()) != class_of(y[0]) || class_of(x.last())
            == CharClass::Han,
    ensures
        atom_pattern(x + b + y) == atom_pattern(x) + junction_sep(
            class_of(x.last()),
            class_of(y[0]),
            b.len() > 0,
        ) + atom_pattern(y),
{
    let cx = class_of(x.last());
    let cy = class_of(y[0]);
    let sep = junction_sep(cx, cy, b.len() > 0);
    let c = y[0];
    let yrest = y.drop_first();
    lemma_run_concat(init_state(), x, b);
    lemma_run_concat(init_state(), x + b, y);
    let st1 = run(init_state(), x);
    lemma_run_last_significant(x);
    lemma_run_blanks(st1, b);
    let st2 = run(st1, b);
    // One step over the first character of `y` emits the pattern of `x`
    // followed by the separator, and starts the word anew.
    let st3 = step(st2, c);
    assert(st3.prev == cy);
    assert(st3.word == seq![c]);
    assert(!st3.committed);
    assert(st3.out =~= finalize(st1) + sep);
    // From there the machine behaves as it does on `y` alone, but for the
    // output already written.
    assert(run(init_state(), y) == run(step(init_state(), c), yrest));
    let sty = step(init_state(), c);
    assert(sty.prev == cy && sty.word == seq![c] && !sty.committed && sty.out
        =~= Seq::<char>::empty());
    lemma_run_out_frame(st3, yrest);
    assert(CompState { out: Seq::<char>::empty(), ..st3 } == sty);
    assert(run(st2, y) == run(st3, yrest)) by {
        assert((y =~= seq![c] + yrest));
        lemma_run_concat(st2, seq![c], yrest);
        reveal_with_fuel(run, 2);
        assert(seq![c][0] == c);
        assert(seq![c].drop_first() =~= Seq::<char>::empty());
        assert(run(st2, seq![c]) == st3);
    }
    let rj = run(st3, yrest);
    let ry = run(sty, yrest);
    assert(rj.out == st3.out + ry.out);
    assert(finalize(rj) =~= st3.out + finalize(ry));
    assert(atom_pattern(x + b + y) == finalize(run(st2, y)));
    assert(atom_pattern(x + b + y) =~= atom_pattern(x) + sep + atom_pattern(y));
}

/// Every character of `s` is significant and outside the CJK blocks.
pub open spec fn all_other(s: Seq<char>) -> bool {
    forall|i: int| 0 <= i < s.len() ==> class_of(#[trigger] s[i]) == CharClass::Other
}

/// Every character of `s` lies in the CJK blocks.
pub open spec fn all_han(s: Seq<char>) -> bool {
    forall|i: int| 0 <= i < s.len() ==> is_han_char(#[trigger] s[i])
}

proof fn lemma_run_all_other(s: Seq<char>)
    requires
        s.len() > 0,
        all_other(s),
    ensures
        run(init_state(), s) == (CompState {
            prev: CharClass::Other,
            word: s,
            committed: false,
            out: Seq::<char>::empty(),
        }),
    decreases s.len(),
{
    reveal_with_fuel(run, 2);
    if s.len() == 1 {
        assert(s.drop_first() =~= Seq::<char>::empty());
        assert(seq![s[0]] =~= s);
    } else {
        let front = s.drop_last();
        let c = s.last();
        assert(forall|i: int| 0 <= i < front.len() ==> front[i] == s[i]);
        lemma_run_all_other(front);
        assert(s =~= front.push(c));
        lemma_run_snoc(init_state(), front, c);
        assert(front.push(c) =~= s);
    }
}

/// One word of non-CJK characters, with no blank inside, compiles to its
/// escaped self: a single literal token.
pub proof fn lemma_word_literal(s: Seq<char>)
    requires
        s.len() > 0,
        all_other(s),
    ensures
        atom_pattern(s) == escape_chars(s),
{
    lemma_run_all_other(s);
    assert(atom_pattern(s) =~= escape_chars(s));
}

/// A single significant character compiles to its escaped self.
pub proof fn lemma_single_char_pattern(c: char)
    requires
        !is_blank_char(c),
    ensures
        atom_pattern(seq![c]) == escape_chars(seq![c]),
{
    reveal_with_fuel(run, 2);
    assert(seq![c][0] == c);
    assert(seq![c].drop_first() =~= Seq::<char>::empty());
    lemma_escape_chars_snoc(Seq::empty(), c);
    assert(seq![c] =~= Seq::<char>::empty().push(c));
    assert(atom_pattern(seq![c]) =~= escape_chars(seq![c]));
}

/// At a script transition with no intervening blank, the separator is
/// always `\s*`, whichever side is CJK.
pub proof fn lemma_script_transition_sep(x: Seq<char>, y: Seq<char>)
    requires
        x.len() > 0,
        y.len() > 0,
        !is_blank_char(x.last()),
        !is_blank_char(y[0]),
        class_of(x.last()) != class_of(y[0]),
    ensures
        atom_pattern(x + y) == atom_pattern(x) + sep_star() + atom_pattern(y),
{
    lemma_compile_junction(x, Seq::empty(), y);
    assert(x + Seq::<char>::empty() + y =~= x + y);
}

/// CJK characters on both sides of a run of one or more blanks are joined
/// by `\s+`.
pub proof fn lemma_han_blank_sep(x: Seq<char>, b: Seq<char>, y: Seq<char>)
    requires
        x.len() > 0,
        y.len() > 0,
        is_han_char(x.last()),
        is_han_char(y[0]),
        all_blank(b),
        b.len() > 0,
    ensures
        atom_pattern(x + b + y) == atom_pattern(x) + sep_plus() + atom_pattern(y),
{
    lemma_compile_junction(x, b, y);
}

/// Adjacent CJK characters with no blank in between are joined by `\s*`.
pub proof fn lemma_han_adjacent_sep(x: Seq<char>, y: Seq<char>)
    requires
        x.len() > 0,
        y.len() > 0,
        is_han_char(x.last()),
        is_han_char(y[0]),
    ensures
        atom_pattern(x + y) == atom_pattern(x) + sep_star() + atom_pattern(y),
{
    lemma_compile_junction(x, Seq::empty(), y);
    assert(x + Seq::<char>::empty() + y =~= x + y);
}

/// Words of non-CJK characters on both sides of a run of one or more
/// blanks are joined by `\s+`.
pub proof fn lemma_word_blank_sep(x: Seq<char>, b: Seq<char>, y: Seq<char>)
    requires
        x.len() > 0,
        y.len() > 0,
        class_of(x.last()) == CharClass::Other,
        class_of(y[0]) == CharClass::Other,
        all_blank(b),
        b.len() > 0,
    ensures
        atom_pattern(x + b + y) == atom_pattern(x) + sep_plus() + atom_pattern(y),
{
    lemma_compile_junction(x, b, y);
}

/// The escaped characters of `s`, each its own token, joined by `\s*`.
pub open spec fn han_joined(s: Seq<char>) -> Seq<char>
    decreases s.len(),
{
    if s.len() == 0 {
        Seq::empty()
    } else if s.len() == 1 {
        escape_chars(s)
    } else {
        escape_chars(seq![s[0]]) + sep_star() + han_joined(s.drop_first())
    }
}

/// An atom of CJK characters alone, with no separating blank, compiles to
/// its characters escaped and joined by `\s*`.
pub proof fn lemma_all_han_pattern(s: Seq<char>)
    requires
        all_han(s),
    ensures
        atom_pattern(s) == han_joined(s),
    decreases s.len(),
{
    if s.len() == 0 {
        lemma_blank_atom_empty_pattern(s);
    } else if s.len() == 1 {
        assert(s =~= seq![s[0]]);
        lemma_single_char_pattern(s[0]);
    } else {
        let head = seq![s[0]];
        let rest = s.drop_first();
        assert(forall|i: int| 0 <= i < rest.len() ==> rest[i] == s[i + 1]);
        assert(all_han(rest));
        assert(head.last() == s[0]);
        lemma_han_adjacent_sep(head, rest);
        assert(head + rest =~= s);
        lemma_all_han_pattern(rest);
        lemma_single_char_pattern(s[0]);
    }
}

/// The escaped words, each a literal token, joined by `\s+`.
pub open spec fn words_joined(ws: Seq<Seq<char>>) -> Seq<char>
    decreases ws.len(),
{
    if ws.len() == 0 {
        Seq::empty()
    } else if ws.len() == 1 {
        escape_chars(ws[0])
    } else {
        escape_chars(ws[0]) + sep_plus() + words_joined(ws.drop_first())
    }
}

/// The atom with the given words in order, a run of blanks between each
/// pair of neighbours.
pub open spec fn with_blanks(ws: Seq<Seq<char>>, bs: Seq<Seq<char>>) -> Seq<char>
    decreases ws.len(),
{
    if ws.len() == 0 {
        Seq::empty()
    } else if ws.len() == 1 {
        ws[0]
    } else {
        ws[0] + bs[0] + with_blanks(ws.drop_first(), bs.drop_first())
    }
}

/// An atom of non-CJK words separated by runs of one or more blanks
/// compiles to the escaped words joined by `\s+`.
pub proof fn lemma_words_pattern(ws: Seq<Seq<char>>, bs: Seq<Seq<char>>)
    requires
        ws.len() > 0,
        bs.len() >= ws.len() - 1,
        forall|i: int| 0 <= i < ws.len() ==> (#[trigger] ws[i]).len() > 0 && all_other(ws[i]),
        forall|i: int| 0 <= i < bs.len() ==> (#[trigger] bs[i]).len() > 0 && all_blank(bs[i]),
    ensures
        atom_pattern(with_blanks(ws, bs)) == words_joined(ws),
    decreases ws.len(),
{
    if ws.len() == 1 {
        lemma_word_literal(ws[0]);
    } else {
        let rest = with_blanks(ws.drop_first(), bs.drop_first());
        assert(forall|i: int| 0 <= i < ws.drop_first().len() ==> ws.drop_first()[i] == ws[i + 1]);
        assert(forall|i: int| 0 <= i < bs.drop_first().len() ==> bs.drop_first()[i] == bs[i + 1]);
        lemma_words_pattern(ws.drop_first(), bs.drop_first());
        assert(rest.len() > 0 && rest[0] == ws[1][0]) by {
            if ws.len() == 2 {
                assert(rest == ws[1]);
            } else {
                assert(rest == ws[1] + bs[1] + with_blanks(
                    ws.drop_first().drop_first(),
                    bs.drop_first().drop_first(),
                ));
            }
        }
        assert(class_of(rest[0]) == CharClass::Other);
        lemma_word_blank_sep(ws[0], bs[0], rest);
        lemma_word_literal(ws[0]);
    }
}

/// Whether a text satisfies every pattern of a group does not depend on the
/// order in which the group stores the patterns.
pub proof fn lemma_group_matches_order(p1: Seq<Seq<char>>, p2: Seq<Seq<char>>, text: Seq<char>)
    requires
        p1.to_multiset() == p2.to_multiset(),
    ensures
        group_matches(p1, text) == group_matches(p2, text),
{
    if group_matches(p1, text) {
        lemma_same_multiset_all_matched(p1, p2, text);
    }
    if group_matches(p2, text) {
        lemma_same_multiset_all_matched(p2, p1, text);
    }
}

proof fn lemma_same_multiset_all_matched(p1: Seq<Seq<char>>, p2: Seq<Seq<char>>, text: Seq<char>)
    requires
        p1.to_multiset() == p2.to_multiset(),
        group_matches(p1, text),
    ensures
        group_matches(p2, text),
{
    p1.to_multiset_ensures();
    p2.to_multiset_ensures();
    assert forall|i: int| 0 <= i < p2.len() implies regex_matches(#[trigger] p2[i], text) by {
        assert(p2.contains(p2[i]));
        assert(p2.to_multiset().count(p2[i]) > 0);
        assert(p1.contains(p2[i]));
        let j = choose|j: int| 0 <= j < p1.len() && p1[j] == p2[i];
        assert(regex_matches(p1[j], text));
    }
}

/// Whether some result in `rs` carries the path `p`.
pub open spec fn has_path(rs: Seq<FileMatchView>, p: Seq<char>) -> bool {
    exists|i: int| 0 <= i < rs.len() && rs[i].path == p
}

proof fn lemma_same_multiset_has_path(r1: Seq<FileMatchView>, r2: Seq<FileMatchView>, p: Seq<char>)
    requires
        r1.to_multiset() == r2.to_multiset(),
        has_path(r1, p),
    ensures
        has_path(r2, p),
{
    r1.to_multiset_ensures();
    r2.to_multiset_ensures();
    let i = choose|i: int| 0 <= i < r1.len() && r1[i].path == p;
    assert(r1.contains(r1[i]));
    assert(r1.to_multiset().count(r1[i]) > 0);
    assert(r2.contains(r1[i]));
    let j = choose|j: int| 0 <= j < r2.len() && r2[j] == r1[i];
    assert(r2[j].path == p);
}

/// The scanner finds the same set of paths whether it runs sequentially or
/// in parallel: any sequential result (which `spec_scan` pins exactly) and
/// any parallel result (pinned up to order) carry the same paths.
pub proof fn lemma_scan_mode_agreement(
    g: Seq<Seq<char>>,
    fs: Seq<TextFileView>,
    r_seq: Seq<FileMatchView>,
    r_par: Seq<FileMatchView>,
)
    requires
        r_seq == spec_scan(g, fs),
        r_par.to_multiset() == spec_scan(g, fs).to_multiset(),
    ensures
        forall|p: Seq<char>| has_path(r_seq, p) <==> has_path(r_par, p),
{
    assert forall|p: Seq<char>| has_path(r_seq, p) <==> has_path(r_par, p) by {
        if has_path(r_seq, p) {
            lemma_same_multiset_has_path(r_seq, r_par, p);
        }
        if has_path(r_par, p) {
            lemma_same_multiset_has_path(r_par, r_seq, p);
        }
    }
}

/// Whatever byte offsets are asked for - out of range or crossed included -
/// the UTF-8-safe window is a contiguous whole-character subrange of the
/// text, or empty: it can never hold part of a multi-byte character.
pub proof fn lemma_window_is_char_subrange(t: Seq<char>, a: int, b: int)
    requires
        0 <= a,
        0 <= b,
    ensures
        exists|k1: int, k2: int|
            0 <= k1 <= k2 <= t.len() && decode_utf8(window_bytes(encode_utf8(t), a, b))
                == t.subrange(k1, k2),
{
    broadcast use vstd::utf8::encode_utf8_valid_utf8;
    broadcast use vstd::utf8::valid_utf8_split;

    let bytes = encode_utf8(t);
    let lo = if a > bytes.len() {
        a
    } else {
        next_boundary(bytes, a)
    };
    let hi = prev_boundary(bytes, b);
    lemma_prev_boundary(bytes, b);
    if a <= bytes.len() {
        lemma_next_boundary(bytes, a);
    }
    if lo <= hi && a <= bytes.len() {
        let pre_hi = bytes.subrange(0, hi);
        vstd::utf8::decode_utf8_split(bytes, hi);
        lemma_boundary_in_prefix(bytes, lo, hi);
        assert(pre_hi.len() == hi);
        vstd::utf8::decode_utf8_split(pre_hi, lo);
        let head = decode_utf8(pre_hi.subrange(0, lo));
        let mid = decode_utf8(pre_hi.subrange(lo, hi));
        let tail = decode_utf8(bytes.subrange(hi, bytes.len() as int));
        assert(pre_hi.subrange(0, lo) =~= bytes.subrange(0, lo));
        assert(pre_hi.subrange(lo, hi) =~= bytes.subrange(lo, hi));
        vstd::utf8::encode_utf8_decode_utf8(t);
        assert(t =~= head + mid + tail);
        let k1 = head.len() as int;
        let k2 = k1 + mid.len() as int;
        assert(t.subrange(k1, k2) =~= mid);
        assert(window_bytes(bytes, a, b) == bytes.subrange(lo, hi));
        assert(0 <= k1 <= k2 <= t.len() && decode_utf8(window_bytes(encode_utf8(t), a, b))
            == t.subrange(k1, k2));
    } else {
        assert(window_bytes(bytes, a, b) =~= Seq::<u8>::empty());
        assert(decode_utf8(Seq::<u8>::empty()) =~= Seq::<char>::empty());
        assert(t.subrange(0, 0) =~= Seq::<char>::empty());
        assert(0 <= 0 <= 0 <= t.len() && decode_utf8(window_bytes(encode_utf8(t), a, b))
            == t.subrange(0, 0));
    }
}

} // verus!

