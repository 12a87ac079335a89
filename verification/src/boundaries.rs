//! Character-boundary handling for byte indices into UTF-8 text.
//!
//! Snippet extraction computes raw byte windows and must snap them to valid
//! character boundaries so that multi-byte encodings are never split.  The
//! boundary predicate is `vstd::utf8::is_char_boundary`; this module adds the
//! snapping functions and the lemmas that let a window between two boundaries
//! be decoded on its own.

use vstd::prelude::*;
use vstd::utf8::is_char_boundary;
use vstd::utf8::is_char_boundary_iff_not_is_continuation_byte;
use vstd::utf8::is_char_boundary_start_end_of_seq;
use vstd::utf8::length_of_first_scalar;
use vstd::utf8::pop_first_scalar;
use vstd::utf8::valid_first_scalar;
use vstd::utf8::valid_leading_and_continuation_bytes_first_codepoint;
use vstd::utf8::valid_utf8;
use vstd::utf8::valid_utf8_split;

verus! {

/// A boundary of a valid UTF-8 sequence is also a boundary of any prefix that
/// itself ends at a boundary at or after it.
pub proof fn lemma_boundary_in_prefix(s: Seq<u8>, i: int, j: int)
    requires
        valid_utf8(s),
        is_char_boundary(s, i),
        is_char_boundary(s, j),
        0 <= i <= j <= s.len(),
    ensures
        valid_utf8(s.subrange(0, j)),
        is_char_boundary(s.subrange(0, j), i),
    decreases s.len(),
{
    reveal_with_fuel(valid_utf8, 2);
    reveal_with_fuel(is_char_boundary, 2);
    valid_utf8_split(s, j);
    let p = s.subrange(0, j);
    if i > 0 {
        let lf = length_of_first_scalar(s);
        let t = pop_first_scalar(s);
        assert(is_char_boundary(s, i) == is_char_boundary(t, i - lf));
        assert(i - lf >= 0);
        assert(j - lf >= 0);
        assert(valid_leading_and_continuation_bytes_first_codepoint(p)) by {
            assert(valid_first_scalar(s));
            assert(p.len() >= lf);
            assert(p[0] == s[0]);
            if lf >= 2 {
                assert(p[1] == s[1]);
            }
            if lf >= 3 {
                assert(p[2] == s[2]);
            }
            if lf >= 4 {
                assert(p[3] == s[3]);
            }
        }
        assert(length_of_first_scalar(p) == lf);
        assert(pop_first_scalar(p) =~= t.subrange(0, j - lf));
        assert(is_char_boundary(t, j - lf));
        lemma_boundary_in_prefix(t, i - lf, j - lf);
        assert(is_char_boundary(p, i) == is_char_boundary(pop_first_scalar(p), i - lf));
    }
}

/// The bytes between two boundaries of a valid UTF-8 sequence are themselves
/// valid UTF-8.
pub proof fn lemma_valid_window(s: Seq<u8>, i: int, j: int)
    requires
        valid_utf8(s),
        is_char_boundary(s, i),
        is_char_boundary(s, j),
        0 <= i <= j <= s.len(),
    ensures
        valid_utf8(s.subrange(i, j)),
    decreases s.len(),
{
    lemma_boundary_in_prefix(s, i, j);
    let p = s.subrange(0, j);
    valid_utf8_split(p, i);
    assert(p.subrange(i, p.len() as int) =~= s.subrange(i, j));
}

/// The nearest boundary at or before `i`, with indices past the end snapped
/// to the end.
pub open spec fn spec_floor_boundary(b: Seq<u8>, i: int) -> int
    decreases i,
{
    if i >= b.len() {
        b.len() as int
    } else if i <= 0 {
        0
    } else if is_char_boundary(b, i) {
        i
    } else {
        spec_floor_boundary(b, i - 1)
    }
}

/// The nearest boundary at or after `i`, with indices past the end snapped
/// to the end.
pub open spec fn spec_ceil_boundary(b: Seq<u8>, i: int) -> int
    decreases b.len() - i,
{
    if i >= b.len() {
        b.len() as int
    } else if i <= 0 {
        0
    } else if is_char_boundary(b, i) {
        i
    } else {
        spec_ceil_boundary(b, i + 1)
    }
}

/// The downward snap lands on a boundary at or before the requested index.
pub proof fn lemma_floor_props(b: Seq<u8>, i: int)
    requires
        valid_utf8(b),
    ensures
        is_char_boundary(b, spec_floor_boundary(b, i)),
        0 <= spec_floor_boundary(b, i) <= b.len(),
        0 <= i < b.len() ==> spec_floor_boundary(b, i) <= i,
    decreases b.len() + i,
{
    is_char_boundary_start_end_of_seq(b);
    reveal_with_fuel(is_char_boundary, 1);
    if 0 < i < b.len() && !is_char_boundary(b, i) {
        lemma_floor_props(b, i - 1);
    }
}

/// The upward snap lands on a boundary at or after the requested index.
pub proof fn lemma_ceil_props(b: Seq<u8>, i: int)
    requires
        valid_utf8(b),
    ensures
        is_char_boundary(b, spec_ceil_boundary(b, i)),
        0 <= spec_ceil_boundary(b, i) <= b.len(),
        0 <= i <= b.len() ==> i <= spec_ceil_boundary(b, i),
    decreases b.len() - i + 1,
{
    is_char_boundary_start_end_of_seq(b);
    reveal_with_fuel(is_char_boundary, 1);
    if 0 < i < b.len() && !is_char_boundary(b, i) {
        lemma_ceil_props(b, i + 1);
    }
}

/// Whether byte index `i` of a valid UTF-8 byte slice is a character
/// boundary: the start, the end, or any byte that is not a continuation byte.
pub fn is_boundary(b: &[u8], i: usize) -> (r: bool)
    requires
        valid_utf8(b@),
        i <= b@.len(),
    ensures
        r == is_char_boundary(b@, i as int),
{
    if i == 0 || i == b.len() {
        proof {
            is_char_boundary_start_end_of_seq(b@);
        }
        true
    } else {
        proof {
            is_char_boundary_iff_not_is_continuation_byte(b@, i as int);
        }
        let x = b[i];
        !(0x80 <= x && x <= 0xbf)
    }
}

/// The nearest valid character boundary at or before byte index `index`.
pub fn floor_char_boundary(b: &[u8], index: usize) -> (r: usize)
    requires
        valid_utf8(b@),
    ensures
        r as int == spec_floor_boundary(b@, index as int),
{
    if index >= b.len() {
        return b.len();
    }
    let mut i: usize = index;
    while i > 0 && !is_boundary(b, i)
        invariant
            valid_utf8(b@),
            i <= index,
            index < b@.len(),
            spec_floor_boundary(b@, index as int) == spec_floor_boundary(b@, i as int),
        decreases i,
    {
        i = i - 1;
    }
    i
}

/// The nearest valid character boundary at or after byte index `index`.
pub fn ceil_char_boundary(b: &[u8], index: usize) -> (r: usize)
    requires
        valid_utf8(b@),
    ensures
        r as int == spec_ceil_boundary(b@, index as int),
{
    if index >= b.len() {
        return b.len();
    }
    let n = b.len();
    let mut i: usize = index;
    while i < n && !is_boundary(b, i)
        invariant
            valid_utf8(b@),
            n == b@.len(),
            index <= i <= n,
            index < b@.len(),
            spec_ceil_boundary(b@, index as int) == spec_ceil_boundary(b@, i as int),
        decreases n - i,
    {
        i = i + 1;
    }
    i
}

} // verus!
