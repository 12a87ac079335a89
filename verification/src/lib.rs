//! A verified search engine for line-oriented session event logs.
//!
//! The library parses a small boolean query language (`AND`, `OR`, implicit
//! conjunction between adjacent terms), evaluates the resulting expression
//! tree case-insensitively against each line of a log, extracts display text
//! from JSON event records, and builds UTF-8-safe context snippets around the
//! earliest matching term.  The scan driver enforces a result cap, reports
//! truncation, and accounts byte offsets so that callers can re-read a
//! matching line directly from the file.

pub mod boundaries;
pub mod bytefind;
pub mod extract;
pub mod query;
pub mod search;
pub mod shellquote;
pub mod snippet;
pub mod strutil;

pub use query::SearchExpr;
pub use search::LogLine;
pub use search::SearchMatch;
pub use search::SearchResponse;
pub use search::search_session;
pub use search::search_subagent;
pub use shellquote::shell_escape;
pub use snippet::build_snippet;
