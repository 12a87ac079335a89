//! Context snippets around the earliest matching term.
//!
//! Given the display text of a matching event and the terms of the query,
//! the builder finds the lowest byte offset at which any term occurs in the
//! lower-cased text, widens a symmetric byte window around it, snaps the
//! window edges to character boundaries so multi-byte encodings are never
//! split, extends to whole-word boundaries, trims surrounding whitespace,
//! and marks elided ends with an ellipsis.  Every step is total: no input
//! can make it fail.

use vstd::prelude::*;
use vstd::slice::slice_subrange;
use vstd::string::StrSliceExecFns;
use vstd::string::StringExecFns;
use vstd::string::StringSliceAdditionalSpecFns;
use vstd::utf8::decode_utf8;
use vstd::utf8::encode_utf8;
use vstd::utf8::is_char_boundary;
use vstd::utf8::valid_utf8;

use crate::boundaries::ceil_char_boundary;
use crate::boundaries::floor_char_boundary;
use crate::boundaries::lemma_ceil_props;
use crate::boundaries::lemma_floor_props;
use crate::boundaries::lemma_valid_window;
use crate::boundaries::spec_ceil_boundary;
use crate::boundaries::spec_floor_boundary;
use crate::bytefind::find_bytes;
use crate::bytefind::spec_find;
use crate::strutil::bytes_to_string;
use crate::strutil::lower_of;
use crate::strutil::lowercase;

verus! {

broadcast use {vstd::utf8::encode_utf8_valid_utf8, vstd::string::group_string_axioms};

/// `Option<usize>` as a mathematical option over `int`.
pub open spec fn opt_int(o: Option<usize>) -> Option<int> {
    match o {
        Some(p) => Some(p as int),
        None => None,
    }
}

/// Fold of the earliest-occurrence search over the remaining terms: each
/// term's first occurrence replaces the accumulator only when the
/// accumulator is not already strictly smaller.
pub open spec fn spec_earliest_acc(
    lb: Seq<u8>,
    terms: Seq<Seq<char>>,
    i: int,
    acc: Option<int>,
) -> Option<int>
    decreases terms.len() - i,
{
    if i < 0 || i >= terms.len() {
        acc
    } else {
        let next = match spec_find(lb, encode_utf8(terms[i])) {
            Some(p) => match acc {
                Some(e) => if e < p {
                    Some(e)
                } else {
                    Some(p)
                },
                None => Some(p),
            },
            None => acc,
        };
        spec_earliest_acc(lb, terms, i + 1, next)
    }
}

/// The lowest starting byte offset of any term occurrence in the lower-cased
/// text.
pub open spec fn spec_earliest(lb: Seq<u8>, terms: Seq<Seq<char>>) -> Option<int> {
    spec_earliest_acc(lb, terms, 0, None)
}

/// The anchor position the window centres on; when no term is found the
/// window falls back to the start of the text.
pub open spec fn spec_anchor(lb: Seq<u8>, terms: Seq<Seq<char>>) -> int {
    match spec_earliest(lb, terms) {
        Some(p) => p,
        None => 0,
    }
}

/// The last space strictly before byte index `end`, if any.
pub open spec fn spec_rfind_space(b: Seq<u8>, end: int) -> Option<int>
    decreases end,
{
    if end <= 0 || end > b.len() {
        None
    } else if b[end - 1] == 32 {
        Some(end - 1)
    } else {
        spec_rfind_space(b, end - 1)
    }
}

/// The first space at or after byte index `from`, if any.
pub open spec fn spec_find_space_from(b: Seq<u8>, from: int) -> Option<int>
    decreases b.len() - from,
{
    if from < 0 || from >= b.len() {
        None
    } else if b[from] == 32 {
        Some(from)
    } else {
        spec_find_space_from(b, from + 1)
    }
}

/// The Unicode `White_Space` characters, the set `str::trim` removes from
/// a string's edges.
pub open spec fn is_trim_ws(c: char) -> bool {
    let u = c as u32;
    u == 0x20 || (0x9 <= u && u <= 0xD) || u == 0x85 || u == 0xA0 || u == 0x1680 || (0x2000 <= u
        && u <= 0x200A) || u == 0x2028 || u == 0x2029 || u == 0x202F || u == 0x205F || u == 0x3000
}

/// First index at or after `i` holding a non-whitespace character, or the
/// end.
pub open spec fn spec_trim_from(s: Seq<char>, i: int) -> int
    decreases s.len() - i,
{
    if i < 0 || i >= s.len() {
        s.len() as int
    } else if is_trim_ws(s[i]) {
        spec_trim_from(s, i + 1)
    } else {
        i
    }
}

/// End of the last non-whitespace character at or before `j`, not below
/// `a`.
pub open spec fn spec_trim_back(s: Seq<char>, a: int, j: int) -> int
    decreases j,
{
    if j <= a || j <= 0 {
        j
    } else if is_trim_ws(s[j - 1]) {
        spec_trim_back(s, a, j - 1)
    } else {
        j
    }
}

/// A character sequence with its surrounding whitespace removed.
pub open spec fn trim_chars(s: Seq<char>) -> Seq<char> {
    let a = spec_trim_from(s, 0);
    let b = spec_trim_back(s, a, s.len() as int);
    s.subrange(a, b)
}

/// The snippet window around `pos`: a symmetric byte window clamped to the
/// text, snapped to character boundaries, extended to word boundaries, and
/// defensively re-snapped.
pub open spec fn spec_window(b: Seq<u8>, pos: int, radius: int) -> (int, int) {
    let lo = if pos >= radius {
        pos - radius
    } else {
        0
    };
    let hi = if pos + radius <= b.len() {
        pos + radius
    } else {
        b.len() as int
    };
    let start0 = spec_floor_boundary(b, lo);
    let end0 = spec_ceil_boundary(b, hi);
    let start1 = match spec_rfind_space(b, start0) {
        Some(p) => p + 1,
        None => start0,
    };
    let ends = spec_ceil_boundary(b, end0);
    let end1 = match spec_find_space_from(b, ends) {
        Some(p) => p,
        None => end0,
    };
    (spec_floor_boundary(b, start1), spec_ceil_boundary(b, end1))
}

/// The whole snippet: the trimmed window contents, with an ellipsis on each
/// side whose window edge does not reach the corresponding end of the text.
pub open spec fn spec_snippet(
    text: Seq<char>,
    lower: Seq<char>,
    terms: Seq<Seq<char>>,
    radius: int,
) -> Seq<char> {
    let b = encode_utf8(text);
    let lb = encode_utf8(lower);
    let pos = spec_anchor(lb, terms);
    let (start2, end2) = spec_window(b, pos, radius);
    let mid = trim_chars(decode_utf8(b.subrange(start2, end2)));
    let pre: Seq<char> = if start2 > 0 {
        seq!['.', '.', '.']
    } else {
        Seq::empty()
    };
    let post: Seq<char> = if end2 < b.len() {
        seq!['.', '.', '.']
    } else {
        Seq::empty()
    };
    pre + mid + post
}

/// The last space strictly before `end`.
fn rfind_space(b: &[u8], end: usize) -> (r: Option<usize>)
    requires
        end <= b@.len(),
    ensures
        opt_int(r) == spec_rfind_space(b@, end as int),
        r matches Some(p) ==> p < end,
{
    let mut j: usize = end;
    while j > 0
        invariant
            j <= end <= b@.len(),
            spec_rfind_space(b@, end as int) == spec_rfind_space(b@, j as int),
        decreases j,
    {
        if b[j - 1] == 32 {
            return Some(j - 1);
        }
        j -= 1;
    }
    None
}

/// The first space at or after `from`.
fn find_space_from(b: &[u8], from: usize) -> (r: Option<usize>)
    ensures
        opt_int(r) == spec_find_space_from(b@, from as int),
        r matches Some(p) ==> from <= p < b@.len(),
{
    let n = b.len();
    let mut j: usize = from;
    while j < n
        invariant
            n == b@.len(),
            from <= j,
            spec_find_space_from(b@, from as int) == spec_find_space_from(b@, j as int),
        decreases n - j,
    {
        if b[j] == 32 {
            return Some(j);
        }
        j += 1;
    }
    None
}

/// Build a snippet of `text` around the earliest occurrence of any of the
/// `terms`, with a byte radius of `context_chars` on each side.  Total for
/// every input: boundary snapping keeps every cut on a character boundary.
pub fn build_snippet(text: &str, terms: &Vec<String>, context_chars: usize) -> (r: String)
    ensures
        r@ == spec_snippet(
            text@,
            lower_of(text@),
            terms@.map_values(|t: String| t@),
            context_chars as int,
        ),
{
    let ghost tviews = terms@.map_values(|t: String| t@);
    let lower = lowercase(text);
    let b = text.as_bytes();
    let lb = lower.as_str().as_bytes();
    let blen = b.len();

    let mut earliest: Option<usize> = None;
    let mut ti: usize = 0;
    while ti < terms.len()
        invariant
            tviews == terms@.map_values(|t: String| t@),
            lb@ == encode_utf8(lower_of(text@)),
            ti <= terms@.len(),
            spec_earliest(lb@, tviews) == spec_earliest_acc(
                lb@,
                tviews,
                ti as int,
                opt_int(earliest),
            ),
        decreases terms@.len() - ti,
    {
        proof {
            assert(tviews[ti as int] == terms@[ti as int]@);
        }
        let needle = terms[ti].as_str().as_bytes();
        match find_bytes(lb, needle) {
            Some(p) => {
                earliest = match earliest {
                    Some(e) => if e < p {
                        Some(e)
                    } else {
                        Some(p)
                    },
                    None => Some(p),
                };
            },
            None => {},
        }
        ti += 1;
    }
    let pos = match earliest {
        Some(p) => p,
        None => 0,
    };

    let lo = if pos >= context_chars {
        pos - context_chars
    } else {
        0
    };
    let hi = if pos <= blen && context_chars <= blen - pos {
        pos + context_chars
    } else {
        blen
    };
    let start0 = floor_char_boundary(b, lo);
    let end0 = ceil_char_boundary(b, hi);
    proof {
        lemma_floor_props(b@, lo as int);
        lemma_ceil_props(b@, hi as int);
    }
    let start1 = match rfind_space(b, start0) {
        Some(p) => p + 1,
        None => start0,
    };
    let ends = ceil_char_boundary(b, end0);
    let end1 = match find_space_from(b, ends) {
        Some(p) => p,
        None => end0,
    };
    let start2 = floor_char_boundary(b, start1);
    let end2 = ceil_char_boundary(b, end1);
    proof {
        lemma_ceil_props(b@, end0 as int);
        lemma_floor_props(b@, start1 as int);
        lemma_ceil_props(b@, end1 as int);
        if (lo as int) < blen as int {
            assert(start0 <= lo);
        } else {
            assert(start0 == blen);
            assert(hi == blen);
            assert(end0 == blen);
        }
        assert(start0 <= end0);
        assert(ends == end0);
        assert(end0 <= end1);
        assert(start1 <= start0);
        if (start1 as int) < blen as int {
            assert(start2 <= start1);
        } else {
            assert(start1 == blen);
            assert(start0 == blen);
            assert(lo >= blen);
            assert(end0 == blen);
            assert(end1 == blen);
            assert(start2 == blen && end2 == blen);
        }
        assert(start2 <= end2);
    }

    proof {
        lemma_valid_window(b@, start2 as int, end2 as int);
    }
    let window = slice_subrange(b, start2, end2);
    let mid0 = bytes_to_string(window);
    let wn = mid0.as_str().unicode_len();
    let mut a: usize = 0;
    while a < wn && is_trim_ws_at(mid0.as_str(), a)
        invariant
            wn == mid0@.len(),
            a <= wn,
            spec_trim_from(mid0@, 0) == spec_trim_from(mid0@, a as int),
        decreases wn - a,
    {
        a += 1;
    }
    let mut tail: usize = wn;
    while tail > a && is_trim_ws_at(mid0.as_str(), tail - 1)
        invariant
            wn == mid0@.len(),
            a <= tail <= wn,
            a as int == spec_trim_from(mid0@, 0),
            spec_trim_back(mid0@, a as int, wn as int) == spec_trim_back(
                mid0@,
                a as int,
                tail as int,
            ),
        decreases tail,
    {
        tail -= 1;
    }
    let mid = mid0.as_str().substring_char(a, tail);
    let mut out = String::new();
    proof {
        reveal_strlit("...");
        assert("..."@ =~= seq!['.', '.', '.']);
        assert(mid@ == trim_chars(mid0@));
    }
    if start2 > 0 {
        out.append("...");
    }
    out.append(mid);
    if end2 < blen {
        out.append("...");
    }
    proof {
        assert(out@ =~= spec_snippet(text@, lower_of(text@), tviews, context_chars as int));
    }
    out
}

/// Whether the character at index `i` is trimmable whitespace.
fn is_trim_ws_at(s: &str, i: usize) -> (r: bool)
    requires
        i < s@.len(),
    ensures
        r == is_trim_ws(s@[i as int]),
{
    let c = s.get_char(i);
    let u = c as u32;
    u == 0x20 || (0x9 <= u && u <= 0xD) || u == 0x85 || u == 0xA0 || u == 0x1680 || (0x2000 <= u
        && u <= 0x200A) || u == 0x2028 || u == 0x2029 || u == 0x202F || u == 0x205F || u == 0x3000
}

} // verus!
