//! The scan driver: stream the lines of one log, evaluate the query
//! expression against each, and collect capped, snippeted matches.
//!
//! The driver works over the lines a caller has already read: resolving a
//! log identifier to a file and reading it stay outside the library.  A line
//! that failed to decode keeps its place in the sequence numbering and still
//! advances the byte offset by one (for its terminator), but is neither
//! matched nor counted as searched.  The scan stops the moment the number of
//! collected matches reaches the result cap, and reports that it truncated.

use vstd::prelude::*;
use vstd::string::StringSliceAdditionalSpecFns;
use vstd::utf8::encode_utf8;

use crate::extract::display_text_of;
use crate::extract::extract_text_from_json;
use crate::query::ExprView;
use crate::query::SearchExpr;
use crate::query::collect_terms;
use crate::query::spec_matches;
use crate::query::spec_parse;
use crate::query::spec_terms;
use crate::snippet::build_snippet;
use crate::snippet::spec_snippet;
use crate::strutil::lower_of;

verus! {

/// One line of a log, as the reader produced it.
pub enum LogLine {
    /// A line that decoded as text, without its terminator.
    Text(String),
    /// A line whose bytes did not decode; it keeps its place in the
    /// numbering but is skipped by the scan.
    Unreadable,
}

impl View for LogLine {
    type V = Option<Seq<char>>;

    open spec fn view(&self) -> Option<Seq<char>> {
        match self {
            LogLine::Text(s) => Some(s@),
            LogLine::Unreadable => None,
        }
    }
}

/// A match: the line's index, the byte offset of its first byte within the
/// file, and a bounded contextual snippet.
pub struct SearchMatch {
    /// Zero-based line index, equal to the event's ordinal.
    pub sequence: u32,
    /// Byte offset of the line's first byte, for later random-access
    /// re-reading.
    pub byte_offset: u64,
    /// Snippet of display text around the earliest matched term.
    pub snippet: String,
}

/// What one search call returns.
pub struct SearchResponse {
    /// The matching lines, in ascending sequence order.
    pub matches: Vec<SearchMatch>,
    /// How many lines were read and evaluated; lines that failed to decode
    /// do not count.
    pub total_searched: u32,
    /// Whether the scan stopped early because the result cap was reached.
    pub truncated: bool,
}

/// The models of the lines.
pub open spec fn line_views(lines: Seq<LogLine>) -> Seq<Option<Seq<char>>> {
    lines.map_values(|l: LogLine| l@)
}

/// Bytes a line occupies in the file: its UTF-8 content plus one terminator
/// byte; a line that failed to decode is charged one byte for its
/// terminator alone.
pub open spec fn line_weight(l: Option<Seq<char>>) -> int {
    match l {
        Some(s) => encode_utf8(s).len() as int + 1,
        None => 1,
    }
}

/// Byte offset of line `i`: the weights of all lines before it.
pub open spec fn file_offset(lv: Seq<Option<Seq<char>>>, i: int) -> int
    decreases i,
{
    if i <= 0 {
        0
    } else {
        file_offset(lv, i - 1) + line_weight(lv[i - 1])
    }
}

/// Whether a line is readable text that the expression matches.
pub open spec fn line_match(l: Option<Seq<char>>, e: ExprView) -> bool {
    l matches Some(s) && spec_matches(e, s)
}

/// How many of the first `i` lines are readable.
pub open spec fn readable_below(lv: Seq<Option<Seq<char>>>, i: int) -> int
    decreases i,
{
    if i <= 0 {
        0
    } else {
        readable_below(lv, i - 1) + (if lv[i - 1] is Some {
            1int
        } else {
            0int
        })
    }
}

/// Indices of matching lines at or after `i`, ascending.
pub open spec fn match_indices_from(lv: Seq<Option<Seq<char>>>, e: ExprView, i: int) -> Seq<int>
    decreases lv.len() - i,
{
    if i < 0 || i >= lv.len() {
        Seq::empty()
    } else if line_match(lv[i], e) {
        seq![i] + match_indices_from(lv, e, i + 1)
    } else {
        match_indices_from(lv, e, i + 1)
    }
}

/// Indices of all matching lines, ascending.
pub open spec fn match_indices(lv: Seq<Option<Seq<char>>>, e: ExprView) -> Seq<int> {
    match_indices_from(lv, e, 0)
}

/// The result cap a caller asked for, with the default applied.
pub open spec fn spec_cap(max_results: Option<u32>) -> int {
    match max_results {
        Some(m) => m as int,
        None => 10000,
    }
}

/// The snippet recorded for a matching raw line: what the snippet builder
/// yields for the line's display text.
pub open spec fn snippet_of_line(raw: Seq<char>, terms: Seq<Seq<char>>) -> Seq<char> {
    spec_snippet(display_text_of(raw), lower_of(display_text_of(raw)), terms, 60)
}

/// The sequence numbers of a match list.
pub open spec fn match_seqs(ms: Seq<SearchMatch>) -> Seq<int> {
    ms.map_values(|m: SearchMatch| m.sequence as int)
}

/// The full contract of a scan: which lines are reported, in order, with
/// exact byte offsets; when the response is truncated; and how many lines
/// were searched.
pub open spec fn scan_result(
    lv: Seq<Option<Seq<char>>>,
    e: ExprView,
    cap: int,
    r: SearchResponse,
) -> bool {
    let mi = match_indices(lv, e);
    &&& r.truncated == (mi.len() >= cap)
    &&& (!r.truncated ==> match_seqs(r.matches@) == mi && r.total_searched as int
        == readable_below(lv, lv.len() as int))
    &&& (r.truncated ==> match_seqs(r.matches@) == mi.take(cap) && r.matches@.len() == cap
        && r.total_searched as int == (if cap == 0 {
            0int
        } else {
            readable_below(lv, r.matches@.last().sequence as int + 1)
        }))
    &&& forall|k: int|
        0 <= k < r.matches@.len() ==> {
            let m = #[trigger] r.matches@[k];
            &&& m.sequence < lv.len()
            &&& line_match(lv[m.sequence as int], e)
            &&& m.byte_offset as int == file_offset(lv, m.sequence as int)
            &&& (lv[m.sequence as int] matches Some(raw) && m.snippet@ == snippet_of_line(
                raw,
                spec_terms(e),
            ))
        }
}

/// The empty response that every degenerate input yields.
pub open spec fn empty_response(r: SearchResponse) -> bool {
    r.matches@.len() == 0 && r.total_searched == 0 && !r.truncated
}

/// Offsets never decrease along the file.
proof fn lemma_file_offset_mono(lv: Seq<Option<Seq<char>>>, i: int, j: int)
    requires
        i <= j,
    ensures
        file_offset(lv, i) <= file_offset(lv, j),
    decreases j - i,
{
    if i < j {
        lemma_file_offset_mono(lv, i, j - 1);
    }
}

/// At most `i` of the first `i` lines are readable.
proof fn lemma_readable_bound(lv: Seq<Option<Seq<char>>>, i: int)
    requires
        0 <= i,
    ensures
        0 <= readable_below(lv, i) <= i,
    decreases i,
{
    if i > 0 {
        lemma_readable_bound(lv, i - 1);
    }
}

/// Scan the given lines with a parsed expression.  The two machine-limit
/// preconditions bound the sequence counter and the byte-offset counter;
/// any log that fits in a real file satisfies both.
pub fn search_lines(lines: &Vec<LogLine>, expr: &SearchExpr, max_results: Option<u32>) -> (r:
    SearchResponse)
    requires
        lines@.len() <= u32::MAX,
        file_offset(line_views(lines@), lines@.len() as int) <= u64::MAX,
    ensures
        scan_result(line_views(lines@), expr@, spec_cap(max_results), r),
{
    let ghost lv = line_views(lines@);
    let ghost e = expr@;
    let ghost tv = spec_terms(expr@);
    let cap: usize = match max_results {
        Some(m) => m as usize,
        None => 10000,
    };
    let terms = collect_terms(expr);
    if cap == 0 {
        proof {
            assert(match_indices(lv, e).take(0) =~= Seq::<int>::empty());
            assert(match_seqs(Seq::<SearchMatch>::empty()) =~= Seq::<int>::empty());
        }
        return SearchResponse { matches: Vec::new(), total_searched: 0, truncated: true };
    }
    let mut matches: Vec<SearchMatch> = Vec::new();
    let mut byte_offset: u64 = 0;
    let mut total_searched: u32 = 0;
    let n = lines.len();
    let mut i: usize = 0;
    proof {
        assert(match_seqs(matches@) =~= Seq::<int>::empty());
        assert(Seq::<int>::empty() + match_indices_from(lv, e, 0) =~= match_indices_from(
            lv,
            e,
            0,
        ));
    }
    while i < n
        invariant
            lv == line_views(lines@),
            e == expr@,
            tv == spec_terms(expr@),
            terms@.map_values(|t: String| t@) == tv,
            cap as int == spec_cap(max_results),
            cap >= 1,
            n == lines@.len(),
            n <= u32::MAX,
            file_offset(lv, n as int) <= u64::MAX,
            i <= n,
            byte_offset as int == file_offset(lv, i as int),
            total_searched as int == readable_below(lv, i as int),
            matches@.len() < cap,
            match_indices(lv, e) == match_seqs(matches@) + match_indices_from(lv, e, i as int),
            forall|k: int|
                0 <= k < matches@.len() ==> {
                    let m = #[trigger] matches@[k];
                    &&& m.sequence < lv.len()
                    &&& line_match(lv[m.sequence as int], e)
                    &&& m.byte_offset as int == file_offset(lv, m.sequence as int)
                    &&& (lv[m.sequence as int] matches Some(raw) && m.snippet@
                        == snippet_of_line(raw, tv))
                },
        decreases n - i,
    {
        proof {
            assert(lv[i as int] == lines@[i as int]@);
            lemma_file_offset_mono(lv, i + 1, n as int);
            lemma_readable_bound(lv, i as int);
        }
        match &lines[i] {
            LogLine::Unreadable => {
                byte_offset += 1;
            },
            LogLine::Text(line) => {
                let line_len: u64 = line.as_str().as_bytes().len() as u64 + 1;
                if expr.matches(line.as_str()) {
                    let text = extract_text_from_json(line.as_str());
                    let snippet = build_snippet(text.as_str(), &terms, 60);
                    let ghost m = SearchMatch {
                        sequence: i as u32,
                        byte_offset: byte_offset,
                        snippet: snippet,
                    };
                    proof {
                        assert(snippet@ == snippet_of_line(line@, tv)) by {
                            assert(text@ == display_text_of(line@));
                        }
                        assert(match_seqs(matches@.push(m)) =~= match_seqs(matches@).push(
                            i as int,
                        ));
                        assert(match_seqs(matches@).push(i as int) + match_indices_from(
                            lv,
                            e,
                            i + 1,
                        ) =~= match_seqs(matches@) + (seq![i as int] + match_indices_from(
                            lv,
                            e,
                            i + 1,
                        )));
                    }
                    matches.push(SearchMatch {
                        sequence: i as u32,
                        byte_offset: byte_offset,
                        snippet: snippet,
                    });
                    if matches.len() >= cap {
                        total_searched += 1;
                        proof {
                            assert(match_indices(lv, e).len() >= matches@.len());
                            assert(matches@.len() == cap);
                            assert(match_indices(lv, e).take(cap as int) =~= match_seqs(
                                matches@,
                            ));
                            assert(matches@.last().sequence as int == i as int);
                            assert(readable_below(lv, i + 1) == readable_below(lv, i as int)
                                + 1);
                        }
                        return SearchResponse {
                            matches: matches,
                            total_searched: total_searched,
                            truncated: true,
                        };
                    }
                }
                byte_offset += line_len;
                total_searched += 1;
            },
        }
        proof {
            assert(file_offset(lv, i + 1) == file_offset(lv, i as int) + line_weight(
                lv[i as int],
            ));
            assert(readable_below(lv, i + 1) == readable_below(lv, i as int) + (
            if lv[i as int] is Some {
                1int
            } else {
                0int
            }));
        }
        i += 1;
    }
    proof {
        assert(match_indices_from(lv, e, n as int) =~= Seq::<int>::empty());
        assert(match_seqs(matches@) + Seq::<int>::empty() =~= match_seqs(matches@));
    }
    SearchResponse { matches: matches, total_searched: total_searched, truncated: false }
}

/// Search a session log for matching events.  `log` holds the log's lines
/// as the caller read them, or nothing when the session identifier did not
/// resolve to a file or the file could not be opened; like an empty or
/// whitespace-only query, that yields the empty response rather than an
/// error.
pub fn search_session(log: Option<&Vec<LogLine>>, query: &str, max_results: Option<u32>) -> (r:
    SearchResponse)
    requires
        log matches Some(l) ==> l@.len() <= u32::MAX && file_offset(
            line_views(l@),
            l@.len() as int,
        ) <= u64::MAX,
    ensures
        spec_parse(query@) is None ==> empty_response(r),
        log is None ==> empty_response(r),
        spec_parse(query@) matches Some(e) ==> log matches Some(l) ==> scan_result(
            line_views(l@),
            e,
            spec_cap(max_results),
            r,
        ),
{
    let expr = match SearchExpr::parse(query) {
        Some(e) => e,
        None => {
            return SearchResponse { matches: Vec::new(), total_searched: 0, truncated: false };
        },
    };
    let lines = match log {
        Some(l) => l,
        None => {
            return SearchResponse { matches: Vec::new(), total_searched: 0, truncated: false };
        },
    };
    search_lines(lines, &expr, max_results)
}

/// Search a sub-agent log for matching events; the contract is that of
/// `search_session`, with the caller resolving the agent identifier
/// instead.
pub fn search_subagent(log: Option<&Vec<LogLine>>, query: &str, max_results: Option<u32>) -> (r:
    SearchResponse)
    requires
        log matches Some(l) ==> l@.len() <= u32::MAX && file_offset(
            line_views(l@),
            l@.len() as int,
        ) <= u64::MAX,
    ensures
        spec_parse(query@) is None ==> empty_response(r),
        log is None ==> empty_response(r),
        spec_parse(query@) matches Some(e) ==> log matches Some(l) ==> scan_result(
            line_views(l@),
            e,
            spec_cap(max_results),
            r,
        ),
{
    let expr = match SearchExpr::parse(query) {
        Some(e) => e,
        None => {
            return SearchResponse { matches: Vec::new(), total_searched: 0, truncated: false };
        },
    };
    let lines = match log {
        Some(l) => l,
        None => {
            return SearchResponse { matches: Vec::new(), total_searched: 0, truncated: false };
        },
    };
    search_lines(lines, &expr, max_results)
}

/// Result cap invariant, for any cap: a scan never returns more matches
/// than the cap; when it reports truncation it returns exactly the cap;
/// and when it does not, it returns exactly the matching lines of the
/// whole file.
pub proof fn lemma_result_cap_invariant(
    lv: Seq<Option<Seq<char>>>,
    e: ExprView,
    cap: int,
    r: SearchResponse,
)
    requires
        scan_result(lv, e, cap, r),
        cap >= 0,
    ensures
        r.matches@.len() <= cap,
        r.truncated ==> r.matches@.len() == cap,
        !r.truncated ==> r.matches@.len() == match_indices(lv, e).len(),
{
    let mi = match_indices(lv, e);
    if !r.truncated {
        assert(match_seqs(r.matches@).len() == r.matches@.len());
        assert(mi.len() < cap);
    }
}

/// The bytes one line contributes to its file: its UTF-8 content followed
/// by one terminator byte.  Only meaningful for lines that decoded.
pub open spec fn line_chunk(l: Option<Seq<char>>) -> Seq<u8> {
    match l {
        Some(s) => encode_utf8(s).push(10),
        None => Seq::empty(),
    }
}

/// The bytes of the file formed by the first `i` lines.
pub open spec fn file_bytes(lv: Seq<Option<Seq<char>>>, i: int) -> Seq<u8>
    decreases i,
{
    if i <= 0 {
        Seq::empty()
    } else {
        file_bytes(lv, i - 1) + line_chunk(lv[i - 1])
    }
}

proof fn lemma_offset_is_file_bytes_len(lv: Seq<Option<Seq<char>>>, i: int)
    requires
        0 <= i <= lv.len(),
        forall|j: int| 0 <= j < i ==> lv[j] is Some,
    ensures
        file_offset(lv, i) == file_bytes(lv, i).len(),
    decreases i,
{
    if i > 0 {
        lemma_offset_is_file_bytes_len(lv, i - 1);
    }
}

proof fn lemma_file_bytes_prefix(lv: Seq<Option<Seq<char>>>, i: int, j: int)
    requires
        0 <= i <= j,
    ensures
        file_bytes(lv, i).len() <= file_bytes(lv, j).len(),
        file_bytes(lv, j).subrange(0, file_bytes(lv, i).len() as int) == file_bytes(lv, i),
    decreases j - i,
{
    if i < j {
        lemma_file_bytes_prefix(lv, i, j - 1);
        assert(file_bytes(lv, j).subrange(0, file_bytes(lv, i).len() as int)
            =~= file_bytes(lv, j - 1).subrange(0, file_bytes(lv, i).len() as int));
    }
}

/// Byte-offset invariant: in a log whose every line decoded, the file's
/// bytes, re-read from `file_offset(lv, i)` — the `byte_offset` every match
/// of line `i` carries — begin exactly with line `i`'s own UTF-8 bytes.
pub proof fn lemma_byte_offset_refinds_line(lv: Seq<Option<Seq<char>>>, i: int)
    requires
        0 <= i < lv.len(),
        forall|j: int| 0 <= j < lv.len() ==> lv[j] is Some,
    ensures
        ({
            let whole = file_bytes(lv, lv.len() as int);
            let off = file_offset(lv, i);
            let content = encode_utf8(lv[i]->0);
            &&& 0 <= off
            &&& off + content.len() <= whole.len()
            &&& whole.subrange(off, off + content.len() as int) == content
        }),
{
    let whole = file_bytes(lv, lv.len() as int);
    let off = file_offset(lv, i);
    let content = encode_utf8(lv[i]->0);
    lemma_offset_is_file_bytes_len(lv, i);
    lemma_file_bytes_prefix(lv, i + 1, lv.len() as int);
    assert(file_bytes(lv, i + 1) == file_bytes(lv, i) + line_chunk(lv[i]));
    assert(file_bytes(lv, i + 1).len() == off + content.len() + 1);
    assert(whole.subrange(0, file_bytes(lv, i + 1).len() as int) == file_bytes(lv, i + 1));
    assert(whole.subrange(off, off + content.len() as int) =~= content) by {
        assert forall|k: int| 0 <= k < content.len() implies whole[off + k] == content[k] by {
            assert(whole[off + k] == whole.subrange(0, file_bytes(lv, i + 1).len() as int)[off
                + k]);
            assert(file_bytes(lv, i + 1)[off + k] == line_chunk(lv[i])[k]);
            assert(line_chunk(lv[i])[k] == content[k]);
        }
    }
}

} // verus!
