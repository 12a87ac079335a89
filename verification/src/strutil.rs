//! Trusted string conversions.
//!
//! Lower-casing is the one text transformation this crate takes from the
//! standard library without restating it: its full definition spans the
//! Unicode case tables, so the result is only given a name, `lower_of`.
//! Everything proved about matching and snippets is stated relative to that
//! name.

use vstd::prelude::*;
use vstd::utf8::decode_utf8;
use vstd::utf8::valid_utf8;

verus! {

/// The character sequence that `str::to_lowercase` yields for a given input.
pub uninterp spec fn lower_of(s: Seq<char>) -> Seq<char>;

/// Relies on `str::to_lowercase`: the result depends on the input characters
/// alone.
#[verifier::external_body]
pub(crate) fn lowercase(s: &str) -> (r: String)
    ensures
        r@ == lower_of(s@),
{
    s.to_lowercase()
}

/// Relies on `String::from_utf8_lossy`: a valid UTF-8 byte sequence decodes
/// to exactly its characters.
#[verifier::external_body]
pub(crate) fn bytes_to_string(b: &[u8]) -> (r: String)
    ensures
        valid_utf8(b@) ==> r@ == decode_utf8(b@),
{
    String::from_utf8_lossy(b).into_owned()
}

} // verus!
