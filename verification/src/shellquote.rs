//! Single-quoting a string for safe use in a shell command.
//!
//! The whole string is wrapped in single quotes; each single quote inside
//! is replaced by `'\''` (close the quote, emit an escaped quote, reopen).

use vstd::prelude::*;
use vstd::string::StrSliceExecFns;
use vstd::string::StringExecFns;

verus! {

/// The escaped form of the first `j` characters: every character stands
/// for itself except a single quote, which becomes the four characters
/// `'\''`.
pub open spec fn esc_upto(s: Seq<char>, j: int) -> Seq<char>
    decreases j,
{
    if j <= 0 {
        Seq::empty()
    } else {
        esc_upto(s, j - 1) + (if s[j - 1] == '\'' {
            seq!['\'', '\\', '\'', '\'']
        } else {
            seq![s[j - 1]]
        })
    }
}

/// The single-quoted shell form of a string.
pub open spec fn spec_shell_escape(s: Seq<char>) -> Seq<char> {
    seq!['\''] + esc_upto(s, s.len() as int) + seq!['\'']
}

/// A run without single quotes escapes to itself.
proof fn lemma_esc_plain(s: Seq<char>, a: int, b: int)
    requires
        0 <= a <= b <= s.len(),
        forall|k: int| a <= k < b ==> s[k] != '\'',
    ensures
        esc_upto(s, b) == esc_upto(s, a) + s.subrange(a, b),
    decreases b - a,
{
    if a == b {
        assert(esc_upto(s, a) + s.subrange(a, a) =~= esc_upto(s, a));
    } else {
        lemma_esc_plain(s, a, b - 1);
        assert(esc_upto(s, a) + s.subrange(a, b) =~= (esc_upto(s, a) + s.subrange(a, b - 1))
            + seq![s[b - 1]]);
    }
}

/// Escape a string for safe use in shell commands.
pub fn shell_escape(s: &str) -> (r: String)
    ensures
        r@ == spec_shell_escape(s@),
{
    let n = s.unicode_len();
    let mut out = String::new();
    proof {
        reveal_strlit("'");
        reveal_strlit("'\\''");
        assert("'"@ =~= seq!['\'']);
        assert("'\\''"@ =~= seq!['\'', '\\', '\'', '\'']);
    }
    out.append("'");
    let mut start: usize = 0;
    let mut i: usize = 0;
    while i < n
        invariant
            n == s@.len(),
            start <= i <= n,
            forall|k: int| start <= k < i ==> s@[k] != '\'',
            out@ == seq!['\''] + esc_upto(s@, start as int),
        decreases n - i,
    {
        let c = s.get_char(i);
        if c == '\'' {
            proof {
                lemma_esc_plain(s@, start as int, i as int);
            }
            if start < i {
                let seg = s.substring_char(start, i);
                proof {
                    assert((seq!['\''] + esc_upto(s@, start as int)) + seg@ =~= seq!['\'']
                        + esc_upto(s@, i as int));
                }
                out.append(seg);
            } else {
                proof {
                    assert(s@.subrange(start as int, i as int) =~= Seq::<char>::empty());
                    assert(esc_upto(s@, start as int) + Seq::<char>::empty() =~= esc_upto(
                        s@,
                        start as int,
                    ));
                }
            }
            proof {
                reveal_strlit("'\\''");
                assert((seq!['\''] + esc_upto(s@, i as int)) + seq!['\'', '\\', '\'', '\'']
                    =~= seq!['\''] + esc_upto(s@, i + 1));
            }
            out.append("'\\''");
            start = i + 1;
        }
        i += 1;
    }
    proof {
        lemma_esc_plain(s@, start as int, n as int);
    }
    if start < n {
        let seg = s.substring_char(start, n);
        proof {
            assert((seq!['\''] + esc_upto(s@, start as int)) + seg@ =~= seq!['\''] + esc_upto(
                s@,
                n as int,
            ));
        }
        out.append(seg);
    } else {
        proof {
            assert(s@.subrange(start as int, n as int) =~= Seq::<char>::empty());
            assert(esc_upto(s@, start as int) + Seq::<char>::empty() =~= esc_upto(
                s@,
                start as int,
            ));
        }
    }
    proof {
        reveal_strlit("'");
        assert((seq!['\''] + esc_upto(s@, n as int)) + seq!['\''] =~= spec_shell_escape(s@));
    }
    out.append("'");
    out
}

} // verus!
