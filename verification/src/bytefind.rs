//! First-occurrence substring search over byte sequences.
//!
//! Substring matching on strings happens at the byte level throughout this
//! crate: a term occurs in a line when the term's UTF-8 bytes appear as a
//! contiguous run inside the line's UTF-8 bytes.

use vstd::prelude::*;

verus! {

/// Index of the first occurrence of `needle` in `hay` at or after `from`.
pub open spec fn spec_find_from(hay: Seq<u8>, needle: Seq<u8>, from: int) -> Option<int>
    decreases hay.len() - from + 1,
{
    if from < 0 || from + needle.len() > hay.len() {
        None
    } else if hay.subrange(from, from + needle.len()) == needle {
        Some(from)
    } else {
        spec_find_from(hay, needle, from + 1)
    }
}

/// Index of the first occurrence of `needle` in `hay`, if any.
pub open spec fn spec_find(hay: Seq<u8>, needle: Seq<u8>) -> Option<int> {
    spec_find_from(hay, needle, 0)
}

/// True when `needle` occurs somewhere in `hay`.
pub open spec fn contains_bytes(hay: Seq<u8>, needle: Seq<u8>) -> bool {
    spec_find(hay, needle) is Some
}

/// Comparing `needle` against the bytes of `hay` starting at `i`.
fn eq_at(hay: &[u8], needle: &[u8], i: usize) -> (r: bool)
    requires
        i + needle@.len() <= hay@.len(),
    ensures
        r == (hay@.subrange(i as int, i as int + needle@.len()) == needle@),
{
    let n = needle.len();
    let hn = hay.len();
    let mut j: usize = 0;
    while j < n
        invariant
            n == needle@.len(),
            hn == hay@.len(),
            i + needle@.len() <= hay@.len(),
            j <= n,
            forall|k: int| 0 <= k < j ==> hay@[i + k] == needle@[k],
        decreases n - j,
    {
        if hay[i + j] != needle[j] {
            proof {
                assert(hay@.subrange(i as int, i as int + needle@.len())[j as int]
                    == hay@[i + j]);
            }
            return false;
        }
        j += 1;
    }
    proof {
        assert(hay@.subrange(i as int, i as int + needle@.len()) =~= needle@);
    }
    true
}

/// Byte index of the first occurrence of `needle` in `hay`, if any.
pub fn find_bytes(hay: &[u8], needle: &[u8]) -> (r: Option<usize>)
    ensures
        r matches Some(p) ==> spec_find(hay@, needle@) == Some(p as int),
        r is None ==> spec_find(hay@, needle@) is None,
{
    if needle.len() > hay.len() {
        return None;
    }
    let last = hay.len() - needle.len();
    let mut i: usize = 0;
    while i <= last
        invariant
            needle@.len() <= hay@.len(),
            last == hay@.len() - needle@.len(),
            i <= last + 1,
            spec_find(hay@, needle@) == spec_find_from(hay@, needle@, i as int),
        decreases last + 1 - i,
    {
        if eq_at(hay, needle, i) {
            return Some(i);
        }
        if i == last {
            return None;
        }
        i += 1;
    }
    None
}

/// True when `needle` occurs somewhere in `hay`.
pub fn find_contains(hay: &[u8], needle: &[u8]) -> (r: bool)
    ensures
        r == contains_bytes(hay@, needle@),
{
    find_bytes(hay, needle).is_some()
}

} // verus!
