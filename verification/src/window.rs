//! The context windower: given a text and an approximate byte range, widen
//! or narrow the range to the nearest character boundaries and return the
//! corresponding slice.  The result is always a well-formed substring; a
//! crossed or out-of-range request yields the empty string.

use vstd::prelude::*;
use vstd::string::StringSliceAdditionalSpecFns;
use vstd::utf8::{
    decode_utf8, encode_utf8, is_char_boundary, is_continuation_byte, valid_utf8,
};

verus! {

/// The smallest character boundary at or after `i`.
pub open spec fn next_boundary(bytes: Seq<u8>, i: int) -> int
    recommends
        valid_utf8(bytes),
        0 <= i <= bytes.len(),
    decreases bytes.len() - i,
{
    if !(0 <= i < bytes.len()) {
        i
    } else if is_char_boundary(bytes, i) {
        i
    } else {
        next_boundary(bytes, i + 1)
    }
}

/// The largest character boundary at or before `i` (and never past the end
/// of the sequence).
pub open spec fn prev_boundary(bytes: Seq<u8>, i: int) -> int
    recommends
        valid_utf8(bytes),
        0 <= i,
    decreases i,
{
    if i <= 0 {
        0
    } else if is_char_boundary(bytes, i) {
        i
    } else {
        prev_boundary(bytes, i - 1)
    }
}

/// The bytes of the widest boundary-aligned window approximating `[a, b)`:
/// the start moves forward to a boundary, the end moves backward, and a
/// crossed pair yields the empty sequence.
pub open spec fn window_bytes(bytes: Seq<u8>, a: int, b: int) -> Seq<u8>
    recommends
        valid_utf8(bytes),
        0 <= a && 0 <= b,
{
    let lo = if a > bytes.len() {
        a
    } else {
        next_boundary(bytes, a)
    };
    let hi = prev_boundary(bytes, b);
    if lo <= hi {
        bytes.subrange(lo, hi)
    } else {
        Seq::empty()
    }
}

pub proof fn lemma_next_boundary(bytes: Seq<u8>, i: int)
    requires
        valid_utf8(bytes),
        0 <= i <= bytes.len(),
    ensures
        i <= next_boundary(bytes, i) <= bytes.len(),
        is_char_boundary(bytes, next_boundary(bytes, i)),
    decreases bytes.len() - i,
{
    broadcast use vstd::utf8::is_char_boundary_start_end_of_seq;

    if i == bytes.len() {
    } else if is_char_boundary(bytes, i) {
    } else {
        lemma_next_boundary(bytes, i + 1);
    }
}

pub proof fn lemma_prev_boundary(bytes: Seq<u8>, i: int)
    requires
        valid_utf8(bytes),
        0 <= i,
    ensures
        0 <= prev_boundary(bytes, i) <= i,
        prev_boundary(bytes, i) <= bytes.len(),
        is_char_boundary(bytes, prev_boundary(bytes, i)),
    decreases i,
{
    broadcast use vstd::utf8::is_char_boundary_start_end_of_seq;

    if i <= 0 {
    } else if is_char_boundary(bytes, i) {
    } else {
        lemma_prev_boundary(bytes, i - 1);
    }
}

/// A character boundary of a sequence is also a boundary of any
/// boundary-aligned prefix that contains it.
pub proof fn lemma_boundary_in_prefix(bytes: Seq<u8>, s: int, e: int)
    requires
        valid_utf8(bytes),
        0 <= s <= e <= bytes.len(),
        is_char_boundary(bytes, s),
        is_char_boundary(bytes, e),
    ensures
        is_char_boundary(bytes.subrange(0, e), s),
{
    broadcast use vstd::utf8::valid_utf8_split;
    broadcast use vstd::utf8::is_char_boundary_start_end_of_seq;

    let prefix = bytes.subrange(0, e);
    assert(valid_utf8(prefix));
    if s == 0 {
    } else if s == e {
        assert(prefix.len() == e);
    } else {
        vstd::utf8::is_char_boundary_iff_not_is_continuation_byte(bytes, s);
        vstd::utf8::is_char_boundary_iff_not_is_continuation_byte(prefix, s);
        assert(prefix[s] == bytes[s]);
    }
}

/// The widest UTF-8-valid substring approximating the byte range
/// `[approx_start, approx_end)` of `contents`.
///
/// Both offsets may fall in the middle of a multi-byte character, or out of
/// range entirely: the start is advanced and the end retracted byte by byte
/// until each sits on a character boundary, and a crossed pair yields the
/// empty string.  No input can make this function fail.
pub fn approx_substring<'a>(
    contents: &'a str,
    approx_start: usize,
    approx_end: usize,
) -> (r: &'a str)
    ensures
        r.spec_bytes() == window_bytes(
            contents.spec_bytes(),
            approx_start as int,
            approx_end as int,
        ),
        r@ == decode_utf8(
            window_bytes(contents.spec_bytes(), approx_start as int, approx_end as int),
        ),
{
    let ghost bytes = contents.spec_bytes();
    proof {
        broadcast use vstd::utf8::encode_utf8_valid_utf8;

        assert(valid_utf8(bytes));
    }
    let byte_view = contents.as_bytes();
    proof {
        vstd::slice::axiom_spec_len(byte_view);
        assert(bytes.len() <= usize::MAX);
    }
    let end: usize = contents.len();
    let mut s: usize = approx_start;
    while s < end && !contents.is_char_boundary(s)
        invariant
            bytes == contents.spec_bytes(),
            valid_utf8(bytes),
            end == bytes.len(),
            approx_start <= s,
            approx_start <= end ==> s <= end && next_boundary(bytes, approx_start as int)
                == next_boundary(bytes, s as int),
            approx_start > end ==> s == approx_start,
        decreases end - s,
    {
        proof {
            assert(next_boundary(bytes, s as int) == next_boundary(bytes, s + 1));
        }
        s = s + 1;
    }
    let mut e: usize = approx_end;
    while !contents.is_char_boundary(e)
        invariant
            bytes == contents.spec_bytes(),
            valid_utf8(bytes),
            prev_boundary(bytes, approx_end as int) == prev_boundary(bytes, e as int),
        decreases e,
    {
        proof {
            assert(is_char_boundary(bytes, 0));
            assert(e != 0);
            assert(prev_boundary(bytes, e as int) == prev_boundary(bytes, e - 1));
        }
        e = e - 1;
    }
    proof {
        assert(prev_boundary(bytes, e as int) == e as int);
        if approx_start <= end {
            assert(next_boundary(bytes, s as int) == s as int);
        }
    }
    if s <= e {
        proof {
            lemma_prev_boundary(bytes, approx_end as int);
            assert(e <= bytes.len());
            assert(approx_start <= end) by {
                if approx_start > end {
                    assert(s == approx_start);
                }
            }
            lemma_next_boundary(bytes, approx_start as int);
            lemma_boundary_in_prefix(bytes, s as int, e as int);
        }
        let (pre, _) = contents.split_at(e);
        proof {
            assert(pre.spec_bytes().len() == e);
        }
        let (_, mid) = pre.split_at(s);
        proof {
            assert(mid.spec_bytes() =~= bytes.subrange(s as int, e as int));
            assert(window_bytes(bytes, approx_start as int, approx_end as int) == bytes.subrange(
                s as int,
                e as int,
            ));
            broadcast use vstd::utf8::encode_utf8_decode_utf8;

            assert(decode_utf8(encode_utf8(mid@)) == mid@);
        }
        mid
    } else {
        let r = "";
        proof {
            reveal_strlit("");
            assert(r@ =~= Seq::<char>::empty());
            assert(r.spec_bytes() =~= Seq::<u8>::empty());
            assert(window_bytes(bytes, approx_start as int, approx_end as int)
                =~= Seq::<u8>::empty());
            broadcast use vstd::utf8::encode_utf8_decode_utf8;

            assert(decode_utf8(encode_utf8(r@)) == r@);
        }
        r
    }
}

} // verus!
