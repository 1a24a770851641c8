//! The atom compiler: turns one free-text atom into the source text of a
//! regular expression that tolerates whitespace and script-boundary noise.
//!
//! Every character of the atom is classified as blank, CJK ("Han") or other;
//! the compiler walks the atom once, accumulating literal words and emitting
//! whitespace separators (`\s+` or `\s*`) at word boundaries according to the
//! classes on either side of the boundary.  Literal words are escaped so that
//! no character of the atom is read as regex syntax.

use vstd::prelude::*;

verus! {

/// The class the compiler assigns to a character, plus the synthetic
/// `Term` class of the virtual start-of-atom sentinel.
#[derive(PartialEq, Eq, Structural, Clone, Copy, Debug)]
pub enum CharClass {
    /// The virtual terminator before the first character of the atom.
    Term,
    /// ASCII space, tab, newline or carriage return.
    Blank,
    /// CJK Unified Ideographs (U+4E00..U+9FA5) or Hiragana/Katakana
    /// (U+3040..U+30FF).
    Han,
    /// Everything else.
    Other,
}

pub open spec fn is_blank_char(c: char) -> bool {
    c == ' ' || c == '\t' || c == '\n' || c == '\r'
}

pub open spec fn is_han_char(c: char) -> bool {
    (0x4e00 <= c as u32 && c as u32 <= 0x9fa5) || (0x3040 <= c as u32 && c as u32 <= 0x30ff)
}

pub open spec fn class_of(c: char) -> CharClass {
    if is_blank_char(c) {
        CharClass::Blank
    } else if is_han_char(c) {
        CharClass::Han
    } else {
        CharClass::Other
    }
}

/// The characters that carry meaning in a regular expression and must be
/// escaped to match literally.
pub open spec fn is_meta_char(c: char) -> bool {
    ||| c == '\\'
    ||| c == '.'
    ||| c == '+'
    ||| c == '*'
    ||| c == '?'
    ||| c == '('
    ||| c == ')'
    ||| c == '|'
    ||| c == '['
    ||| c == ']'
    ||| c == '{'
    ||| c == '}'
    ||| c == '^'
    ||| c == '$'
    ||| c == '#'
    ||| c == '&'
    ||| c == '-'
    ||| c == '~'
}

/// A single character, escaped for literal use in a regex source.
pub open spec fn escape_char(c: char) -> Seq<char> {
    if is_meta_char(c) {
        seq!['\\', c]
    } else {
        seq![c]
    }
}

/// A character sequence, escaped for literal use in a regex source.
pub open spec fn escape_chars(s: Seq<char>) -> Seq<char>
    decreases s.len(),
{
    if s.len() == 0 {
        Seq::empty()
    } else {
        escape_char(s[0]) + escape_chars(s.drop_first())
    }
}

pub proof fn lemma_escape_chars_snoc(s: Seq<char>, c: char)
    ensures
        escape_chars(s.push(c)) == escape_chars(s) + escape_char(c),
    decreases s.len(),
{
    reveal_with_fuel(escape_chars, 2);
    if s.len() == 0 {
        assert(s.push(c)[0] == c);
        assert(s.push(c).drop_first() =~= Seq::<char>::empty());
        assert(escape_chars(s.push(c)) =~= escape_chars(s) + escape_char(c));
    } else {
        assert(s.push(c)[0] == s[0]);
        assert(s.push(c).drop_first() =~= s.drop_first().push(c));
        lemma_escape_chars_snoc(s.drop_first(), c);
        assert(escape_chars(s.push(c)) =~= escape_chars(s) + escape_char(c));
    }
}

/// The `\s*` separator: zero or more whitespace characters.
pub open spec fn sep_star() -> Seq<char> {
    seq!['\\', 's', '*']
}

/// The `\s+` separator: one or more whitespace characters.
pub open spec fn sep_plus() -> Seq<char> {
    seq!['\\', 's', '+']
}

/// The compiler's state after some prefix of the atom: the class of the last
/// significant character seen, the pending literal word, whether that word
/// has already been committed to the output, and the output built so far.
pub struct CompState {
    pub prev: CharClass,
    pub word: Seq<char>,
    pub committed: bool,
    pub out: Seq<char>,
}

pub open spec fn init_state() -> CompState {
    CompState { prev: CharClass::Term, word: Seq::empty(), committed: false, out: Seq::empty() }
}

/// The output with the pending word committed (escaped and appended), if it
/// has not been committed yet.
pub open spec fn commit_out(st: CompState) -> Seq<char> {
    if st.committed {
        st.out
    } else {
        st.out + escape_chars(st.word)
    }
}

/// One transition of the compiler: how the state changes on reading one
/// character, driven by the pair (class of previous character, class of the
/// current one).
pub open spec fn step(st: CompState, c: char) -> CompState {
    let cls = class_of(c);
    match (st.prev, cls) {
        // Blanks at the very start are skipped.
        (CharClass::Term, CharClass::Blank) => st,
        // The first significant character starts a word.
        (CharClass::Term, _) => CompState {
            prev: cls,
            word: seq![c],
            committed: false,
            out: st.out,
        },
        // `prev` is never Blank: blanks do not become the previous character.
        (CharClass::Blank, _) => st,
        // `class_of` never yields Term for a real character.
        (CharClass::Han, CharClass::Term) | (CharClass::Other, CharClass::Term) => st,
        // A blank after a word commits the word.
        (CharClass::Han, CharClass::Blank) | (CharClass::Other, CharClass::Blank) => CompState {
            prev: st.prev,
            word: Seq::empty(),
            committed: true,
            out: commit_out(st),
        },
        // Adjacent CJK characters: a blank in between demands `\s+`, none
        // tolerates `\s*`.
        (CharClass::Han, CharClass::Han) => if st.committed {
            CompState { prev: CharClass::Han, word: seq![c], committed: false, out: st.out + sep_plus() }
        } else {
            CompState {
                prev: CharClass::Han,
                word: seq![c],
                committed: false,
                out: st.out + escape_chars(st.word) + sep_star(),
            }
        },
        // A script transition is a soft boundary: always `\s*`.
        (CharClass::Han, CharClass::Other) => CompState {
            prev: CharClass::Other,
            word: seq![c],
            committed: false,
            out: commit_out(st) + sep_star(),
        },
        (CharClass::Other, CharClass::Han) => CompState {
            prev: CharClass::Han,
            word: seq![c],
            committed: false,
            out: commit_out(st) + sep_star(),
        },
        // Within one script, a committed word means a blank intervened:
        // demand `\s+`; otherwise the word simply grows.
        (CharClass::Other, CharClass::Other) => if st.committed {
            CompState { prev: CharClass::Other, word: seq![c], committed: false, out: st.out + sep_plus() }
        } else {
            CompState { prev: CharClass::Other, word: st.word.push(c), committed: false, out: st.out }
        },
    }
}

/// The compiler's state after reading all of `s`, starting from `st`.
pub open spec fn run(st: CompState, s: Seq<char>) -> CompState
    decreases s.len(),
{
    if s.len() == 0 {
        st
    } else {
        run(step(st, s[0]), s.drop_first())
    }
}

/// The end-of-atom sentinel: commit whatever word is still pending.
pub open spec fn finalize(st: CompState) -> Seq<char> {
    commit_out(st)
}

/// The pattern source the compiler produces for the atom `s`.
pub open spec fn atom_pattern(s: Seq<char>) -> Seq<char> {
    finalize(run(init_state(), s))
}

pub proof fn lemma_run_snoc(st: CompState, s: Seq<char>, c: char)
    ensures
        run(st, s.push(c)) == step(run(st, s), c),
    decreases s.len(),
{
    reveal_with_fuel(run, 2);
    if s.len() == 0 {
        assert(s.push(c)[0] == c);
        assert(s.push(c).drop_first() =~= Seq::<char>::empty());
    } else {
        assert(s.push(c)[0] == s[0]);
        assert(s.push(c).drop_first() =~= s.drop_first().push(c));
        lemma_run_snoc(step(st, s[0]), s.drop_first(), c);
    }
}

/// Relies on `String::push` of std: appends exactly the given character.
#[verifier::external_body]
fn push_char(s: &mut String, c: char)
    ensures
        final(s)@ == old(s)@.push(c),
{
    s.push(c);
}

fn classify(c: char) -> (r: CharClass)
    ensures
        r == class_of(c),
{
    let v = c as u32;
    if v == 32 || v == 9 || v == 10 || v == 13 {
        proof {
            vstd::utf8::char_u32_cast(c, v);
            assert(c == ' ' || c == '\t' || c == '\n' || c == '\r');
        }
        CharClass::Blank
    } else if (0x4e00 <= v && v <= 0x9fa5) || (0x3040 <= v && v <= 0x30ff) {
        CharClass::Han
    } else {
        proof {
            vstd::utf8::char_u32_cast(c, v);
        }
        CharClass::Other
    }
}

/// A fresh word buffer holding just `c`, escaped.
fn start_word(c: char) -> (r: String)
    ensures
        r@ == escape_chars(seq![c]),
{
    let mut buf = String::new();
    push_escaped(&mut buf, c);
    proof {
        assert(seq![c] =~= Seq::<char>::empty().push(c));
        lemma_escape_chars_snoc(Seq::empty(), c);
        assert(buf@ =~= escape_chars(seq![c]));
    }
    buf
}

/// Appends `escape_char(c)` to `buf`.
fn push_escaped(buf: &mut String, c: char)
    ensures
        final(buf)@ == old(buf)@ + escape_char(c),
{
    let v = c as u32;
    let meta = v == 92 || v == 46 || v == 43 || v == 42 || v == 63 || v == 40 || v == 41
        || v == 124 || v == 91 || v == 93 || v == 123 || v == 125 || v == 94 || v == 36
        || v == 35 || v == 38 || v == 45 || v == 126;
    proof {
        vstd::utf8::char_u32_cast(c, v);
        assert(meta == is_meta_char(c));
    }
    if meta {
        push_char(buf, '\\');
    }
    push_char(buf, c);
    proof {
        assert(final(buf)@ =~= old(buf)@ + escape_char(c));
    }
}

/// Compiles one atom into the source text of its pattern.
///
/// The result is deterministic and total: any atom, including an empty or
/// all-blank one, compiles; blanks at either end are stripped, literal words
/// are escaped, and word boundaries become `\s+` or `\s*` separators as the
/// transition table of [`step`] prescribes.
pub fn compile_atom(atom: &str) -> (r: String)
    ensures
        r@ == atom_pattern(atom@),
{
    let n: usize = atom.unicode_len();
    let mut out = String::new();
    let mut word_esc = String::new();
    let mut prev = CharClass::Term;
    let mut committed = false;
    let mut i: usize = 0;
    proof {
        assert(atom@.take(0) =~= Seq::<char>::empty());
    }
    while i < n
        invariant
            n == atom@.len(),
            i <= n,
            ({
                let st = run(init_state(), atom@.take(i as int));
                &&& prev == st.prev
                &&& committed == st.committed
                &&& word_esc@ == escape_chars(st.word)
                &&& out@ == st.out
                &&& st.committed ==> st.word == Seq::<char>::empty()
            }),
        decreases n - i,
    {
        let c = atom.get_char(i);
        let cls = classify(c);
        let ghost st = run(init_state(), atom@.take(i as int));
        proof {
            assert(atom@.take(i + 1) =~= atom@.take(i as int).push(atom@[i as int]));
            lemma_run_snoc(init_state(), atom@.take(i as int), c);
        }
        match (prev, cls) {
            (CharClass::Term, CharClass::Blank) => {},
            (CharClass::Term, _) => {
                word_esc = start_word(c);
                committed = false;
                prev = cls;
            },
            (CharClass::Blank, _) => {},
            (CharClass::Han, CharClass::Term) | (CharClass::Other, CharClass::Term) => {},
            (CharClass::Han, CharClass::Blank) | (CharClass::Other, CharClass::Blank) => {
                if !committed {
                    out.append(word_esc.as_str());
                    word_esc = String::new();
                    committed = true;
                }
            },
            (CharClass::Han, CharClass::Han) => {
                if committed {
                    out.append("\\s+");
                    proof {
                        reveal_strlit("\\s+");
                        assert(("\\s+")@ =~= sep_plus());
                    }
                } else {
                    out.append(word_esc.as_str());
                    out.append("\\s*");
                    proof {
                        reveal_strlit("\\s*");
                        assert(("\\s*")@ =~= sep_star());
                    }
                }
                word_esc = start_word(c);
                committed = false;
                prev = CharClass::Han;
            },
            (CharClass::Han, CharClass::Other) | (CharClass::Other, CharClass::Han) => {
                if !committed {
                    out.append(word_esc.as_str());
                }
                out.append("\\s*");
                proof {
                    reveal_strlit("\\s*");
                    assert(("\\s*")@ =~= sep_star());
                }
                word_esc = start_word(c);
                committed = false;
                prev = cls;
            },
            (CharClass::Other, CharClass::Other) => {
                if committed {
                    out.append("\\s+");
                    proof {
                        reveal_strlit("\\s+");
                        assert(("\\s+")@ =~= sep_plus());
                    }
                    word_esc = start_word(c);
                    committed = false;
                } else {
                    push_escaped(&mut word_esc, c);
                    proof {
                        lemma_escape_chars_snoc(st.word, c);
                    }
                }
                prev = CharClass::Other;
            },
        }
        i = i + 1;
    }
    proof {
        assert(atom@.take(n as int) =~= atom@);
    }
    if !committed {
        out.append(word_esc.as_str());
    }
    out
}

/// The pattern source for a whole OR-group: the compiled atoms joined by
/// the alternation bar.
pub open spec fn or_pattern(atoms: Seq<Seq<char>>) -> Seq<char>
    decreases atoms.len(),
{
    if atoms.len() == 0 {
        Seq::empty()
    } else if atoms.len() == 1 {
        atom_pattern(atoms[0])
    } else {
        atom_pattern(atoms[0]) + seq!['|'] + or_pattern(atoms.drop_first())
    }
}

pub proof fn lemma_or_pattern_snoc(atoms: Seq<Seq<char>>, a: Seq<char>)
    requires
        atoms.len() >= 1,
    ensures
        or_pattern(atoms.push(a)) == or_pattern(atoms) + seq!['|'] + atom_pattern(a),
    decreases atoms.len(),
{
    reveal_with_fuel(or_pattern, 3);
    if atoms.len() == 1 {
        assert(atoms.push(a)[0] == atoms[0]);
        assert(atoms.push(a).drop_first() =~= seq![a]);
        assert(or_pattern(seq![a]) == atom_pattern(a));
        assert(or_pattern(atoms.push(a)) =~= or_pattern(atoms) + seq!['|'] + atom_pattern(a));
    } else {
        assert(atoms.push(a)[0] == atoms[0]);
        assert(atoms.push(a).drop_first() =~= atoms.drop_first().push(a));
        lemma_or_pattern_snoc(atoms.drop_first(), a);
        assert(or_pattern(atoms.push(a)) =~= or_pattern(atoms) + seq!['|'] + atom_pattern(a));
    }
}

/// Compiles a list of alternative atoms into one pattern source, the
/// compiled atoms joined by `|`; an empty list yields the empty source.
pub fn compile_or_group(atoms: &Vec<String>) -> (r: String)
    ensures
        r@ == or_pattern(atoms.deep_view()),
{
    let ghost dv = atoms.deep_view();
    let mut out = String::new();
    let mut i: usize = 0;
    proof {
        assert(dv.take(0) =~= Seq::<Seq<char>>::empty());
    }
    while i < atoms.len()
        invariant
            dv == atoms.deep_view(),
            dv.len() == atoms@.len(),
            forall|j: int| 0 <= j < dv.len() ==> dv[j] == atoms@[j]@,
            i <= atoms@.len(),
            out@ == or_pattern(dv.take(i as int)),
        decreases atoms@.len() - i,
    {
        let src = compile_atom(atoms[i].as_str());
        if i > 0 {
            out.append("|");
            proof {
                reveal_strlit("|");
                assert(("|")@ =~= seq!['|']);
            }
        }
        out.append(src.as_str());
        proof {
            assert(dv.take(i + 1) =~= dv.take(i as int).push(dv[i as int]));
            if i > 0 {
                lemma_or_pattern_snoc(dv.take(i as int), dv[i as int]);
            } else {
                assert(dv.take(1) =~= seq![dv[0]]);
                assert(out@ =~= or_pattern(dv.take(1)));
            }
        }
        i = i + 1;
    }
    proof {
        assert(dv.take(dv.len() as int) =~= dv);
    }
    out
}

} // verus!
