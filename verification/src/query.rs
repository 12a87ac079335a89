//! The boolean query language: tokenizer, parser, and evaluator.
//!
//! A query is split on whitespace; the uppercase words `AND` and `OR` become
//! operators and every other word becomes a lower-cased search term.  The
//! parser builds an expression tree in which `AND` binds tighter than `OR`
//! and adjacency of two terms means `AND`.  Orphan operators at the start are
//! skipped; an `OR` with nothing after it is dropped.  Matching a line is
//! case-insensitive by construction: terms are stored lower-cased and the
//! candidate line is lower-cased before the byte-level substring test.

use vstd::prelude::*;
use vstd::string::StrSliceExecFns;
use vstd::string::StringSliceAdditionalSpecFns;
use vstd::utf8::encode_utf8;

use crate::bytefind::contains_bytes;
use crate::bytefind::find_contains;
use crate::strutil::lower_of;
use crate::strutil::lowercase;

verus! {

/// A token of the query language; only produced while parsing.
pub enum Token {
    Term(String),
    And,
    Or,
}

/// Mathematical model of a token: term contents as a character sequence.
pub enum TokenView {
    Term(Seq<char>),
    And,
    Or,
}

impl View for Token {
    type V = TokenView;

    open spec fn view(&self) -> TokenView {
        match self {
            Token::Term(s) => TokenView::Term(s@),
            Token::And => TokenView::And,
            Token::Or => TokenView::Or,
        }
    }
}

/// Boolean expression tree for search queries.
pub enum SearchExpr {
    /// Single lower-cased term, matched as a case-insensitive substring.
    Term(String),
    /// Both sides must match.
    And(Box<SearchExpr>, Box<SearchExpr>),
    /// Either side must match.
    Or(Box<SearchExpr>, Box<SearchExpr>),
}

/// Mathematical model of an expression tree.
pub enum ExprView {
    Term(Seq<char>),
    And(Box<ExprView>, Box<ExprView>),
    Or(Box<ExprView>, Box<ExprView>),
}

/// The model of an expression: the same tree over character sequences.
pub open spec fn expr_view(e: SearchExpr) -> ExprView
    decreases e,
{
    match e {
        SearchExpr::Term(s) => ExprView::Term(s@),
        SearchExpr::And(l, r) => ExprView::And(Box::new(expr_view(*l)), Box::new(expr_view(*r))),
        SearchExpr::Or(l, r) => ExprView::Or(Box::new(expr_view(*l)), Box::new(expr_view(*r))),
    }
}

impl View for SearchExpr {
    type V = ExprView;

    open spec fn view(&self) -> ExprView {
        expr_view(*self)
    }
}

/// The whitespace that separates query words.
pub open spec fn is_query_ws(c: char) -> bool {
    c == ' ' || c == '\t' || c == '\n'
}

/// The token a single word becomes: the exact uppercase words `AND` and `OR`
/// are operators, anything else is a term, lower-cased.
pub open spec fn token_of(w: Seq<char>) -> TokenView {
    if w == seq!['A', 'N', 'D'] {
        TokenView::And
    } else if w == seq!['O', 'R'] {
        TokenView::Or
    } else {
        TokenView::Term(lower_of(w))
    }
}

/// The token a completed word contributes: nothing if the word is empty.
pub open spec fn flush_word(w: Seq<char>) -> Seq<TokenView> {
    if w.len() == 0 {
        Seq::empty()
    } else {
        seq![token_of(w)]
    }
}

/// Tokens of the query suffix starting at `i`, with `cur` the word read so
/// far.
pub open spec fn spec_tokens_acc(q: Seq<char>, i: int, cur: Seq<char>) -> Seq<TokenView>
    decreases q.len() - i,
{
    if i < 0 || i >= q.len() {
        flush_word(cur)
    } else if is_query_ws(q[i]) {
        flush_word(cur) + spec_tokens_acc(q, i + 1, Seq::empty())
    } else {
        spec_tokens_acc(q, i + 1, cur.push(q[i]))
    }
}

/// The token sequence of a whole query.
pub open spec fn spec_tokens(q: Seq<char>) -> Seq<TokenView> {
    spec_tokens_acc(q, 0, Seq::empty())
}

/// The models of a token list.
pub open spec fn views_of(ts: Seq<Token>) -> Seq<TokenView> {
    ts.map_values(|t: Token| t@)
}

/// A query of whitespace alone yields no tokens.
pub proof fn lemma_ws_only_no_tokens(q: Seq<char>, i: int)
    requires
        forall|k: int| i <= k < q.len() ==> is_query_ws(q[k]),
    ensures
        spec_tokens_acc(q, i, Seq::empty()) == Seq::<TokenView>::empty(),
    decreases q.len() - i,
{
    if 0 <= i < q.len() {
        lemma_ws_only_no_tokens(q, i + 1);
        assert(flush_word(Seq::empty()) + spec_tokens_acc(q, i + 1, Seq::empty())
            =~= Seq::<TokenView>::empty());
    }
}

/// Recursive-descent parsing of one term.  An orphan operator is skipped and
/// the next token is tried; running out of tokens fails.
pub open spec fn spec_parse_term(toks: Seq<TokenView>, pos: int) -> Option<(ExprView, int)>
    decreases toks.len() - pos + 1,
{
    if pos < 0 || pos >= toks.len() {
        None
    } else {
        match toks[pos] {
            TokenView::Term(s) => Some((ExprView::Term(s), pos + 1)),
            _ => if pos + 1 < toks.len() {
                spec_parse_term(toks, pos + 1)
            } else {
                None
            },
        }
    }
}

/// A successful term parse consumes at least one token.
pub proof fn lemma_parse_term_advances(toks: Seq<TokenView>, pos: int)
    ensures
        spec_parse_term(toks, pos) matches Some(r) ==> pos < r.1 <= toks.len(),
    decreases toks.len() - pos + 1,
{
    if 0 <= pos < toks.len() {
        if !(toks[pos] is Term) && pos + 1 < toks.len() {
            lemma_parse_term_advances(toks, pos + 1);
        }
    }
}

/// The `AND` level after its first operand: explicit `AND` and adjacency both
/// extend the tree left-associatively; a failing operand fails the level.
pub open spec fn spec_parse_and_rest(toks: Seq<TokenView>, pos: int, left: ExprView) -> Option<
    (ExprView, int),
>
    decreases toks.len() - pos + 1,
        via spec_parse_and_rest_dec
{
    if pos < 0 || pos >= toks.len() {
        Some((left, pos))
    } else {
        match toks[pos] {
            TokenView::And => match spec_parse_term(toks, pos + 1) {
                Some(r) => spec_parse_and_rest(
                    toks,
                    r.1,
                    ExprView::And(Box::new(left), Box::new(r.0)),
                ),
                None => None,
            },
            TokenView::Term(_) => match spec_parse_term(toks, pos) {
                Some(r) => spec_parse_and_rest(
                    toks,
                    r.1,
                    ExprView::And(Box::new(left), Box::new(r.0)),
                ),
                None => None,
            },
            TokenView::Or => Some((left, pos)),
        }
    }
}

#[via_fn]
proof fn spec_parse_and_rest_dec(toks: Seq<TokenView>, pos: int, left: ExprView) {
    lemma_parse_term_advances(toks, pos);
    lemma_parse_term_advances(toks, pos + 1);
}

/// The `AND` level: one term, then `spec_parse_and_rest`.
pub open spec fn spec_parse_and(toks: Seq<TokenView>, pos: int) -> Option<(ExprView, int)> {
    match spec_parse_term(toks, pos) {
        Some(r) => spec_parse_and_rest(toks, r.1, r.0),
        None => None,
    }
}

/// `spec_parse_and_rest` never moves backwards.
pub proof fn lemma_parse_and_rest_pos(toks: Seq<TokenView>, pos: int, left: ExprView)
    requires
        pos <= toks.len(),
    ensures
        spec_parse_and_rest(toks, pos, left) matches Some(r) ==> pos <= r.1 <= toks.len(),
    decreases toks.len() - pos + 1,
{
    if 0 <= pos < toks.len() {
        match toks[pos] {
            TokenView::And => {
                lemma_parse_term_advances(toks, pos + 1);
                if let Some(r) = spec_parse_term(toks, pos + 1) {
                    lemma_parse_and_rest_pos(
                        toks,
                        r.1,
                        ExprView::And(Box::new(left), Box::new(r.0)),
                    );
                }
            },
            TokenView::Term(_) => {
                lemma_parse_term_advances(toks, pos);
                if let Some(r) = spec_parse_term(toks, pos) {
                    lemma_parse_and_rest_pos(
                        toks,
                        r.1,
                        ExprView::And(Box::new(left), Box::new(r.0)),
                    );
                }
            },
            TokenView::Or => {},
        }
    }
}

/// A successful `AND`-level parse consumes at least one token.
pub proof fn lemma_parse_and_advances(toks: Seq<TokenView>, pos: int)
    ensures
        spec_parse_and(toks, pos) matches Some(r) ==> pos < r.1 <= toks.len(),
{
    lemma_parse_term_advances(toks, pos);
    if let Some(r) = spec_parse_term(toks, pos) {
        lemma_parse_and_rest_pos(toks, r.1, r.0);
    }
}

/// The `OR` level after its first operand.  When nothing usable follows an
/// `OR`, the left side alone stands; the final cursor is never read, so this
/// level only yields the expression.
pub open spec fn spec_parse_or_rest(toks: Seq<TokenView>, pos: int, left: ExprView) -> ExprView
    decreases toks.len() - pos + 1,
        via spec_parse_or_rest_dec
{
    if pos < 0 || pos >= toks.len() {
        left
    } else if toks[pos] is Or {
        match spec_parse_and(toks, pos + 1) {
            Some(r) => spec_parse_or_rest(toks, r.1, ExprView::Or(Box::new(left), Box::new(r.0))),
            None => left,
        }
    } else {
        left
    }
}

#[via_fn]
proof fn spec_parse_or_rest_dec(toks: Seq<TokenView>, pos: int, left: ExprView) {
    lemma_parse_and_advances(toks, pos + 1);
}

/// The `OR` level: one `AND` expression, then `spec_parse_or_rest`.
pub open spec fn spec_parse_or(toks: Seq<TokenView>, pos: int) -> Option<ExprView> {
    match spec_parse_and(toks, pos) {
        Some(r) => Some(spec_parse_or_rest(toks, r.1, r.0)),
        None => None,
    }
}

/// What parsing a whole query yields: no tokens parse to nothing, otherwise
/// the `OR` level runs from the first token.
pub open spec fn spec_parse(q: Seq<char>) -> Option<ExprView> {
    let toks = spec_tokens(q);
    if toks.len() == 0 {
        None
    } else {
        spec_parse_or(toks, 0)
    }
}

/// True when the lower-cased line contains the (already lower-cased) term as
/// a contiguous run of bytes.
pub open spec fn term_hits(term: Seq<char>, line: Seq<char>) -> bool {
    contains_bytes(encode_utf8(lower_of(line)), encode_utf8(term))
}

/// Evaluation of an expression against the UTF-8 bytes of a lower-cased line.
pub open spec fn spec_matches_bytes(e: ExprView, lb: Seq<u8>) -> bool
    decreases e,
{
    match e {
        ExprView::Term(t) => contains_bytes(lb, encode_utf8(t)),
        ExprView::And(l, r) => spec_matches_bytes(*l, lb) && spec_matches_bytes(*r, lb),
        ExprView::Or(l, r) => spec_matches_bytes(*l, lb) || spec_matches_bytes(*r, lb),
    }
}

/// Evaluation of an expression against a line: the line is lower-cased first.
pub open spec fn spec_matches(e: ExprView, line: Seq<char>) -> bool {
    spec_matches_bytes(e, encode_utf8(lower_of(line)))
}

/// A word that becomes a term: any word other than the two operator words.
pub open spec fn is_term_word(w: Seq<char>) -> bool {
    is_word(w) && w != seq!['A', 'N', 'D'] && w != seq!['O', 'R']
}

/// `AND` binds tighter than `OR` at the query level: for any three term
/// words, the query `w1 AND w2 OR w3` parses to `(w1 AND w2) OR w3`, so a
/// line matches it exactly when it contains both `w1` and `w2`, or
/// contains `w3`.
pub proof fn lemma_query_and_binds_tighter(
    w1: Seq<char>,
    w2: Seq<char>,
    w3: Seq<char>,
    line: Seq<char>,
)
    requires
        is_term_word(w1),
        is_term_word(w2),
        is_term_word(w3),
    ensures
        ({
            let q = joined(seq![w1, seq!['A', 'N', 'D'], w2, seq!['O', 'R'], w3]);
            let tree = ExprView::Or(
                Box::new(
                    ExprView::And(
                        Box::new(ExprView::Term(lower_of(w1))),
                        Box::new(ExprView::Term(lower_of(w2))),
                    ),
                ),
                Box::new(ExprView::Term(lower_of(w3))),
            );
            &&& spec_parse(q) == Some(tree)
            &&& (spec_matches(tree, line) <==> ((term_hits(lower_of(w1), line) && term_hits(
                lower_of(w2),
                line,
            )) || term_hits(lower_of(w3), line)))
        }),
{
    let words = seq![w1, seq!['A', 'N', 'D'], w2, seq!['O', 'R'], w3];
    lemma_operator_words_are_words();
    lemma_tokens_of_joined(words);
    assert(words.map_values(|w: Seq<char>| token_of(w)) =~= seq![
        TokenView::Term(lower_of(w1)),
        TokenView::And,
        TokenView::Term(lower_of(w2)),
        TokenView::Or,
        TokenView::Term(lower_of(w3)),
    ]);
    lemma_and_binds_tighter(lower_of(w1), lower_of(w2), lower_of(w3), line);
}

/// Implicit and explicit conjunction are equivalent at the query level: for
/// any two term words, the queries `w1 w2` and `w1 AND w2` parse to the
/// very same expression, and so match exactly the same lines over any
/// corpus.
pub proof fn lemma_query_implicit_and_is_explicit(w1: Seq<char>, w2: Seq<char>)
    requires
        is_term_word(w1),
        is_term_word(w2),
    ensures
        ({
            let tree = ExprView::And(
                Box::new(ExprView::Term(lower_of(w1))),
                Box::new(ExprView::Term(lower_of(w2))),
            );
            &&& spec_parse(joined(seq![w1, w2])) == Some(tree)
            &&& spec_parse(joined(seq![w1, seq!['A', 'N', 'D'], w2])) == Some(tree)
        }),
{
    lemma_operator_words_are_words();
    lemma_tokens_of_joined(seq![w1, w2]);
    lemma_tokens_of_joined(seq![w1, seq!['A', 'N', 'D'], w2]);
    assert(seq![w1, w2].map_values(|w: Seq<char>| token_of(w)) =~= seq![
        TokenView::Term(lower_of(w1)),
        TokenView::Term(lower_of(w2)),
    ]);
    assert(seq![w1, seq!['A', 'N', 'D'], w2].map_values(|w: Seq<char>| token_of(w)) =~= seq![
        TokenView::Term(lower_of(w1)),
        TokenView::And,
        TokenView::Term(lower_of(w2)),
    ]);
    lemma_implicit_and_is_explicit(lower_of(w1), lower_of(w2));
}

/// Orphan operators at the query's edges do not prevent parsing: for any
/// term word, the queries `AND w` and `w OR` both parse to the bare term
/// `w`.
pub proof fn lemma_query_orphan_operators(w: Seq<char>)
    requires
        is_term_word(w),
    ensures
        spec_parse(joined(seq![seq!['A', 'N', 'D'], w])) == Some(ExprView::Term(lower_of(w))),
        spec_parse(joined(seq![w, seq!['O', 'R']])) == Some(ExprView::Term(lower_of(w))),
{
    lemma_operator_words_are_words();
    lemma_tokens_of_joined(seq![seq!['A', 'N', 'D'], w]);
    lemma_tokens_of_joined(seq![w, seq!['O', 'R']]);
    assert(seq![seq!['A', 'N', 'D'], w].map_values(|x: Seq<char>| token_of(x)) =~= seq![
        TokenView::And,
        TokenView::Term(lower_of(w)),
    ]);
    assert(seq![w, seq!['O', 'R']].map_values(|x: Seq<char>| token_of(x)) =~= seq![
        TokenView::Term(lower_of(w)),
        TokenView::Or,
    ]);
    lemma_orphan_operators(lower_of(w));
}

/// The operator words are themselves words.
proof fn lemma_operator_words_are_words()
    ensures
        is_word(seq!['A', 'N', 'D']),
        is_word(seq!['O', 'R']),
{
    let a = seq!['A', 'N', 'D'];
    let o = seq!['O', 'R'];
    assert forall|i: int| 0 <= i < a.len() implies !is_query_ws(a[i]) by {
        assert(a[0] == 'A' && a[1] == 'N' && a[2] == 'D');
    }
    assert forall|i: int| 0 <= i < o.len() implies !is_query_ws(o[i]) by {
        assert(o[0] == 'O' && o[1] == 'R');
    }
}

/// The terms of an expression, left to right.
pub open spec fn spec_terms(e: ExprView) -> Seq<Seq<char>>
    decreases e,
{
    match e {
        ExprView::Term(t) => seq![t],
        ExprView::And(l, r) => spec_terms(*l) + spec_terms(*r),
        ExprView::Or(l, r) => spec_terms(*l) + spec_terms(*r),
    }
}

impl SearchExpr {
    /// The token for the word at character range `[start, end)` of `query`.
    fn classify(query: &str, start: usize, end: usize) -> (t: Token)
        requires
            start < end <= query@.len(),
        ensures
            t@ == token_of(query@.subrange(start as int, end as int)),
    {
        let ghost w = query@.subrange(start as int, end as int);
        let len = end - start;
        if len == 3 && query.get_char(start) == 'A' && query.get_char(start + 1) == 'N'
            && query.get_char(start + 2) == 'D' {
            proof {
                assert(w =~= seq!['A', 'N', 'D']);
            }
            Token::And
        } else if len == 2 && query.get_char(start) == 'O' && query.get_char(start + 1) == 'R' {
            proof {
                assert(w =~= seq!['O', 'R']);
            }
            Token::Or
        } else {
            proof {
                if w == seq!['A', 'N', 'D'] {
                    assert(w.len() == 3);
                    assert(w[0] == 'A' && w[1] == 'N' && w[2] == 'D');
                    assert(query@[start as int] == 'A');
                    assert(query@[start + 1] == 'N');
                    assert(query@[start + 2] == 'D');
                }
                if w == seq!['O', 'R'] {
                    assert(w.len() == 2);
                    assert(w[0] == 'O' && w[1] == 'R');
                    assert(query@[start as int] == 'O');
                    assert(query@[start + 1] == 'R');
                }
            }
            let word = query.substring_char(start, end);
            Token::Term(lowercase(word))
        }
    }

    /// Split the query into terms and operators.
    fn tokenize(query: &str) -> (tokens: Vec<Token>)
        ensures
            views_of(tokens@) == spec_tokens(query@),
    {
        let n = query.unicode_len();
        let mut tokens: Vec<Token> = Vec::new();
        let mut start: usize = 0;
        let mut i: usize = 0;
        proof {
            assert(views_of(tokens@) =~= Seq::<TokenView>::empty());
            assert(query@.subrange(0, 0) =~= Seq::<char>::empty());
            assert(Seq::<TokenView>::empty() + spec_tokens_acc(query@, 0, Seq::empty())
                =~= spec_tokens_acc(query@, 0, Seq::empty()));
        }
        while i < n
            invariant
                n == query@.len(),
                start <= i <= n,
                forall|k: int| start <= k < i ==> !is_query_ws(query@[k]),
                spec_tokens(query@) == views_of(tokens@) + spec_tokens_acc(
                    query@,
                    i as int,
                    query@.subrange(start as int, i as int),
                ),
            decreases n - i,
        {
            let ghost cur = query@.subrange(start as int, i as int);
            let c = query.get_char(i);
            if c == ' ' || c == '\t' || c == '\n' {
                if start < i {
                    let tok = Self::classify(query, start, i);
                    proof {
                        assert(views_of(tokens@.push(tok)) =~= views_of(tokens@).push(tok@));
                        assert(flush_word(cur) =~= seq![token_of(cur)]);
                        assert(views_of(tokens@) + (flush_word(cur) + spec_tokens_acc(
                            query@,
                            i + 1,
                            Seq::empty(),
                        )) =~= views_of(tokens@.push(tok)) + spec_tokens_acc(
                            query@,
                            i + 1,
                            Seq::empty(),
                        ));
                    }
                    tokens.push(tok);
                } else {
                    proof {
                        assert(cur =~= Seq::<char>::empty());
                        assert(flush_word(cur) + spec_tokens_acc(query@, i + 1, Seq::empty())
                            =~= spec_tokens_acc(query@, i + 1, Seq::empty()));
                    }
                }
                start = i + 1;
                proof {
                    assert(query@.subrange(start as int, start as int) =~= Seq::<char>::empty());
                }
            } else {
                proof {
                    assert(query@.subrange(start as int, i + 1) =~= cur.push(query@[i as int]));
                }
            }
            i += 1;
        }
        let ghost cur = query@.subrange(start as int, i as int);
        if start < n {
            let tok = Self::classify(query, start, n);
            proof {
                assert(flush_word(cur) =~= seq![token_of(cur)]);
                assert(views_of(tokens@.push(tok)) =~= views_of(tokens@).push(tok@));
                assert(views_of(tokens@) + flush_word(cur) =~= views_of(tokens@.push(tok)));
            }
            tokens.push(tok);
        } else {
            proof {
                assert(cur =~= Seq::<char>::empty());
                assert(views_of(tokens@) + flush_word(cur) =~= views_of(tokens@));
            }
        }
        tokens
    }

    /// Parse one term, skipping over orphan operators.
    fn parse_term(tokens: &Vec<Token>, pos: &mut usize) -> (r: Option<SearchExpr>)
        requires
            *old(pos) <= tokens@.len(),
        ensures
            r matches Some(e) ==> spec_parse_term(views_of(tokens@), *old(pos) as int) == Some(
                (e@, *final(pos) as int),
            ),
            r is None ==> spec_parse_term(views_of(tokens@), *old(pos) as int) is None
                && *old(pos) <= *final(pos) == tokens@.len(),
        decreases tokens@.len() - *old(pos),
    {
        if *pos >= tokens.len() {
            return None;
        }
        match &tokens[*pos] {
            Token::Term(s) => {
                let e = SearchExpr::Term(s.clone());
                *pos += 1;
                Some(e)
            },
            _ => {
                *pos += 1;
                if *pos < tokens.len() {
                    Self::parse_term(tokens, pos)
                } else {
                    None
                }
            },
        }
    }

    /// Whether the token at `i` is the `OR` operator.
    fn peek_is_or(tokens: &Vec<Token>, i: usize) -> (r: bool)
        requires
            i < tokens@.len(),
        ensures
            r == (views_of(tokens@)[i as int] is Or),
    {
        proof {
            assert(views_of(tokens@)[i as int] == tokens@[i as int]@);
        }
        match &tokens[i] {
            Token::Or => true,
            _ => false,
        }
    }

    /// Parse an `AND` expression: explicit `AND` and adjacent terms combine
    /// left-associatively.
    #[verifier::loop_isolation(false)]
    fn parse_and_expr(tokens: &Vec<Token>, pos: &mut usize) -> (r: Option<SearchExpr>)
        requires
            *old(pos) <= tokens@.len(),
        ensures
            r matches Some(e) ==> spec_parse_and(views_of(tokens@), *old(pos) as int) == Some(
                (e@, *final(pos) as int),
            ) && (*final(pos) == tokens@.len() || views_of(tokens@)[*final(pos) as int] is Or),
            r is None ==> spec_parse_and(views_of(tokens@), *old(pos) as int) is None
                && *final(pos) == tokens@.len(),
    {
        let ghost pos0: int = *pos as int;
        let mut left = match Self::parse_term(tokens, pos) {
            Some(e) => e,
            None => {
                return None;
            },
        };
        proof {
            lemma_parse_term_advances(views_of(tokens@), pos0);
        }
        while *pos < tokens.len() && !Self::peek_is_or(tokens, *pos)
            invariant
                *pos <= tokens@.len(),
                spec_parse_and(views_of(tokens@), pos0) == spec_parse_and_rest(
                    views_of(tokens@),
                    *pos as int,
                    left@,
                ),
            decreases tokens@.len() - *pos,
        {
            let ghost posl: int = *pos as int;
            proof {
                assert(views_of(tokens@)[posl] == tokens@[posl]@);
            }
            let is_and = match &tokens[*pos] {
                Token::And => true,
                _ => false,
            };
            if is_and {
                *pos += 1;
            }
            proof {
                lemma_parse_term_advances(views_of(tokens@), *pos as int);
            }
            let right = match Self::parse_term(tokens, pos) {
                Some(e) => e,
                None => {
                    proof {
                        let vs = views_of(tokens@);
                        if is_and {
                            assert(vs[posl] is And);
                            assert(spec_parse_term(vs, posl + 1) is None);
                        } else {
                            assert(vs[posl] is Term);
                            assert(spec_parse_term(vs, posl) is None);
                        }
                        assert(spec_parse_and_rest(vs, posl, left@) is None);
                    }
                    return None;
                },
            };
            left = SearchExpr::And(Box::new(left), Box::new(right));
        }
        Some(left)
    }

    /// Parse an `OR` expression, the lowest-precedence level.
    fn parse_or_expr(tokens: &Vec<Token>, pos: &mut usize) -> (r: Option<SearchExpr>)
        requires
            *old(pos) <= tokens@.len(),
        ensures
            r matches Some(e) ==> spec_parse_or(views_of(tokens@), *old(pos) as int) == Some(e@),
            r is None ==> spec_parse_or(views_of(tokens@), *old(pos) as int) is None,
            *final(pos) == tokens@.len(),
    {
        let ghost pos0: int = *pos as int;
        let mut left = match Self::parse_and_expr(tokens, pos) {
            Some(e) => e,
            None => {
                return None;
            },
        };
        proof {
            lemma_parse_and_advances(views_of(tokens@), pos0);
        }
        while *pos < tokens.len()
            invariant_except_break
                *pos <= tokens@.len(),
                *pos == tokens@.len() || views_of(tokens@)[*pos as int] is Or,
                spec_parse_or(views_of(tokens@), pos0) == Some(
                    spec_parse_or_rest(views_of(tokens@), *pos as int, left@),
                ),
            ensures
                spec_parse_or(views_of(tokens@), pos0) == Some(left@),
                *pos == tokens@.len(),
            decreases tokens@.len() - *pos,
        {
            let ghost posl: int = *pos as int;
            proof {
                assert(views_of(tokens@)[posl] == tokens@[posl]@);
            }
            let is_or = match &tokens[*pos] {
                Token::Or => true,
                _ => false,
            };
            if !is_or {
                break ;
            }
            *pos += 1;
            proof {
                lemma_parse_and_advances(views_of(tokens@), *pos as int);
            }
            match Self::parse_and_expr(tokens, pos) {
                Some(right) => {
                    left = SearchExpr::Or(Box::new(left), Box::new(right));
                },
                None => {
                    break ;
                },
            }
        }
        Some(left)
    }

    /// Parse a query string into an expression tree.  A query with no words
    /// at all yields `None`: there is nothing to search for.
    pub fn parse(query: &str) -> (r: Option<SearchExpr>)
        ensures
            r matches Some(e) ==> spec_parse(query@) == Some(e@),
            r is None ==> spec_parse(query@) is None,
            (forall|k: int| 0 <= k < query@.len() ==> is_query_ws(query@[k])) ==> r is None,
    {
        let tokens = Self::tokenize(query);
        proof {
            if forall|k: int| 0 <= k < query@.len() ==> is_query_ws(query@[k]) {
                lemma_ws_only_no_tokens(query@, 0);
            }
        }
        if tokens.len() == 0 {
            return None;
        }
        let mut pos: usize = 0;
        Self::parse_or_expr(&tokens, &mut pos)
    }

    /// Whether this expression matches a line, case-insensitively.
    pub fn matches(&self, line: &str) -> (r: bool)
        ensures
            r == spec_matches(self@, line@),
    {
        let lower = lowercase(line);
        self.matches_impl(lower.as_str().as_bytes())
    }

    /// Evaluate against the bytes of an already lower-cased line.
    fn matches_impl(&self, lb: &[u8]) -> (r: bool)
        ensures
            r == spec_matches_bytes(self@, lb@),
        decreases self,
    {
        match self {
            SearchExpr::Term(t) => find_contains(lb, t.as_str().as_bytes()),
            SearchExpr::And(l, r) => l.matches_impl(lb) && r.matches_impl(lb),
            SearchExpr::Or(l, r) => l.matches_impl(lb) || r.matches_impl(lb),
        }
    }
}

/// A single word of a query: non-empty, with no whitespace inside.
pub open spec fn is_word(w: Seq<char>) -> bool {
    w.len() > 0 && forall|i: int| 0 <= i < w.len() ==> !is_query_ws(w[i])
}

/// The query string that puts the given words one after another, separated
/// by single spaces.
pub open spec fn joined(words: Seq<Seq<char>>) -> Seq<char>
    decreases words.len(),
{
    if words.len() == 0 {
        Seq::empty()
    } else if words.len() == 1 {
        words[0]
    } else {
        words[0] + seq![' '] + joined(words.drop_first())
    }
}

/// Reading tokens from position `i + d` of a query is reading them from
/// position `d` of the query's tail starting at `i`.
proof fn lemma_acc_shift(q: Seq<char>, i: int, d: int, cur: Seq<char>)
    requires
        0 <= i,
        0 <= d,
        i <= q.len(),
    ensures
        spec_tokens_acc(q, i + d, cur) == spec_tokens_acc(
            q.subrange(i, q.len() as int),
            d,
            cur,
        ),
    decreases q.len() - i - d + 1,
{
    let t = q.subrange(i, q.len() as int);
    if i + d < q.len() {
        assert(t[d] == q[i + d]);
        if is_query_ws(q[i + d]) {
            lemma_acc_shift(q, i, d + 1, Seq::empty());
        } else {
            lemma_acc_shift(q, i, d + 1, cur.push(q[i + d]));
        }
    }
}

/// A run of word characters reaching the end of the query closes the
/// current word.
proof fn lemma_acc_word_to_end(q: Seq<char>, i: int, cur: Seq<char>)
    requires
        0 <= i <= q.len(),
        forall|k: int| i <= k < q.len() ==> !is_query_ws(q[k]),
    ensures
        spec_tokens_acc(q, i, cur) == flush_word(cur + q.subrange(i, q.len() as int)),
    decreases q.len() - i,
{
    if i == q.len() {
        assert(cur + q.subrange(i, q.len() as int) =~= cur);
    } else {
        lemma_acc_word_to_end(q, i + 1, cur.push(q[i]));
        assert(cur.push(q[i]) + q.subrange(i + 1, q.len() as int) =~= cur + q.subrange(
            i,
            q.len() as int,
        ));
    }
}

/// A run of word characters up to a whitespace at `k` closes the current
/// word there and goes on after the whitespace.
proof fn lemma_acc_word_until_ws(q: Seq<char>, i: int, k: int, cur: Seq<char>)
    requires
        0 <= i <= k < q.len(),
        forall|j: int| i <= j < k ==> !is_query_ws(q[j]),
        is_query_ws(q[k]),
    ensures
        spec_tokens_acc(q, i, cur) == flush_word(cur + q.subrange(i, k)) + spec_tokens_acc(
            q,
            k + 1,
            Seq::empty(),
        ),
    decreases k - i,
{
    if i == k {
        assert(cur + q.subrange(i, k) =~= cur);
    } else {
        lemma_acc_word_until_ws(q, i + 1, k, cur.push(q[i]));
        assert(cur.push(q[i]) + q.subrange(i + 1, k) =~= cur + q.subrange(i, k));
    }
}

/// Tokenizing space-joined words yields exactly one token per word.
pub proof fn lemma_tokens_of_joined(words: Seq<Seq<char>>)
    requires
        forall|i: int| 0 <= i < words.len() ==> is_word(#[trigger] words[i]),
    ensures
        spec_tokens(joined(words)) == words.map_values(|w: Seq<char>| token_of(w)),
    decreases words.len(),
{
    let q = joined(words);
    if words.len() == 0 {
        assert(words.map_values(|w: Seq<char>| token_of(w)) =~= Seq::<TokenView>::empty());
    } else if words.len() == 1 {
        assert(is_word(words[0]));
        lemma_acc_word_to_end(q, 0, Seq::empty());
        assert(Seq::<char>::empty() + q.subrange(0, q.len() as int) =~= words[0]);
        assert(words.map_values(|w: Seq<char>| token_of(w)) =~= seq![token_of(words[0])]);
    } else {
        let w0 = words[0];
        let rest = words.drop_first();
        let k = w0.len() as int;
        assert(is_word(w0));
        assert(forall|j: int| 0 <= j < k ==> q[j] == w0[j]);
        assert(q[k] == ' ');
        lemma_acc_word_until_ws(q, 0, k, Seq::empty());
        assert(Seq::<char>::empty() + q.subrange(0, k) =~= w0);
        lemma_acc_shift(q, k + 1, 0, Seq::empty());
        assert(q.subrange(k + 1, q.len() as int) =~= joined(rest));
        lemma_tokens_of_joined(rest);
        assert(flush_word(w0) =~= seq![token_of(w0)]);
        assert(seq![token_of(w0)] + rest.map_values(|w: Seq<char>| token_of(w)) =~= words.map_values(
            |w: Seq<char>| token_of(w),
        ));
    }
}

/// Matching is case-insensitive by construction: terms are stored
/// lower-cased and every line is lower-cased before the substring test, so
/// no expression can tell two lines with the same lower-casing apart.
pub proof fn lemma_matching_ignores_case(e: ExprView, l1: Seq<char>, l2: Seq<char>)
    requires
        lower_of(l1) == lower_of(l2),
    ensures
        spec_matches(e, l1) == spec_matches(e, l2),
{
}

/// `AND` binds tighter than `OR`.  For any three terms, the token sequence
/// `t1 AND t2 OR t3` parses to `(t1 AND t2) OR t3`, so a line matches the
/// query exactly when it contains both `t1` and `t2`, or contains `t3`.
pub proof fn lemma_and_binds_tighter(t1: Seq<char>, t2: Seq<char>, t3: Seq<char>, line: Seq<char>)
    ensures
        ({
            let toks = seq![
                TokenView::Term(t1),
                TokenView::And,
                TokenView::Term(t2),
                TokenView::Or,
                TokenView::Term(t3),
            ];
            let tree = ExprView::Or(
                Box::new(
                    ExprView::And(Box::new(ExprView::Term(t1)), Box::new(ExprView::Term(t2))),
                ),
                Box::new(ExprView::Term(t3)),
            );
            &&& spec_parse_or(toks, 0) == Some(tree)
            &&& spec_matches(tree, line) <==> ((term_hits(t1, line) && term_hits(t2, line))
                || term_hits(t3, line))
        }),
{
    let toks = seq![
        TokenView::Term(t1),
        TokenView::And,
        TokenView::Term(t2),
        TokenView::Or,
        TokenView::Term(t3),
    ];
    let e1 = ExprView::Term(t1);
    let e12 = ExprView::And(Box::new(ExprView::Term(t1)), Box::new(ExprView::Term(t2)));
    let tree = ExprView::Or(Box::new(e12), Box::new(ExprView::Term(t3)));
    assert(spec_parse_term(toks, 0) == Some((e1, 1int)));
    assert(spec_parse_term(toks, 2) == Some((ExprView::Term(t2), 3int)));
    assert(spec_parse_term(toks, 5) is None);
    assert(spec_parse_and_rest(toks, 3, e12) == Some((e12, 3int)));
    assert(spec_parse_and_rest(toks, 1, e1) == Some((e12, 3int)));
    assert(spec_parse_and(toks, 0) == Some((e12, 3int)));
    assert(spec_parse_term(toks, 4) == Some((ExprView::Term(t3), 5int)));
    assert(spec_parse_and_rest(toks, 5, ExprView::Term(t3)) == Some((ExprView::Term(t3), 5int)));
    assert(spec_parse_and(toks, 4) == Some((ExprView::Term(t3), 5int)));
    assert(spec_parse_or_rest(toks, 5, tree) == tree);
    assert(spec_parse_or_rest(toks, 3, e12) == tree);
    assert(spec_parse_or(toks, 0) == Some(tree));
    let lb = encode_utf8(lower_of(line));
    assert(spec_matches_bytes(ExprView::Term(t1), lb) == term_hits(t1, line));
    assert(spec_matches_bytes(ExprView::Term(t2), lb) == term_hits(t2, line));
    assert(spec_matches_bytes(ExprView::Term(t3), lb) == term_hits(t3, line));
    assert(spec_matches_bytes(e12, lb) == (term_hits(t1, line) && term_hits(t2, line)));
    assert(spec_matches_bytes(tree, lb) == (spec_matches_bytes(e12, lb) || term_hits(t3, line)));
}

/// Implicit and explicit conjunction are one and the same: the token
/// sequences `t1 t2` and `t1 AND t2` parse to the identical expression tree,
/// so they match exactly the same lines over any corpus.
pub proof fn lemma_implicit_and_is_explicit(t1: Seq<char>, t2: Seq<char>)
    ensures
        ({
            let implicit = seq![TokenView::Term(t1), TokenView::Term(t2)];
            let explicit = seq![TokenView::Term(t1), TokenView::And, TokenView::Term(t2)];
            let tree = ExprView::And(
                Box::new(ExprView::Term(t1)),
                Box::new(ExprView::Term(t2)),
            );
            &&& spec_parse_or(implicit, 0) == Some(tree)
            &&& spec_parse_or(explicit, 0) == Some(tree)
        }),
{
    let implicit = seq![TokenView::Term(t1), TokenView::Term(t2)];
    let explicit = seq![TokenView::Term(t1), TokenView::And, TokenView::Term(t2)];
    let e1 = ExprView::Term(t1);
    let tree = ExprView::And(Box::new(ExprView::Term(t1)), Box::new(ExprView::Term(t2)));
    assert(spec_parse_term(implicit, 0) == Some((e1, 1int)));
    assert(spec_parse_term(implicit, 1) == Some((ExprView::Term(t2), 2int)));
    assert(spec_parse_and_rest(implicit, 2, tree) == Some((tree, 2int)));
    assert(spec_parse_and_rest(implicit, 1, e1) == Some((tree, 2int)));
    assert(spec_parse_or_rest(implicit, 2, tree) == tree);
    assert(spec_parse_or(implicit, 0) == Some(tree));
    assert(spec_parse_term(explicit, 0) == Some((e1, 1int)));
    assert(spec_parse_term(explicit, 2) == Some((ExprView::Term(t2), 3int)));
    assert(spec_parse_and_rest(explicit, 3, tree) == Some((tree, 3int)));
    assert(spec_parse_and_rest(explicit, 1, e1) == Some((tree, 3int)));
    assert(spec_parse_or_rest(explicit, 3, tree) == tree);
    assert(spec_parse_or(explicit, 0) == Some(tree));
}

/// Orphan operators at the edges do not prevent parsing: `AND t` and `t OR`
/// both parse to the bare term `t`.
pub proof fn lemma_orphan_operators(t: Seq<char>)
    ensures
        ({
            let leading = seq![TokenView::And, TokenView::Term(t)];
            let trailing = seq![TokenView::Term(t), TokenView::Or];
            &&& spec_parse_or(leading, 0) == Some(ExprView::Term(t))
            &&& spec_parse_or(trailing, 0) == Some(ExprView::Term(t))
        }),
{
    let leading = seq![TokenView::And, TokenView::Term(t)];
    let trailing = seq![TokenView::Term(t), TokenView::Or];
    let e = ExprView::Term(t);
    assert(spec_parse_term(leading, 1) == Some((e, 2int)));
    assert(spec_parse_term(leading, 0) == Some((e, 2int)));
    assert(spec_parse_and_rest(leading, 2, e) == Some((e, 2int)));
    assert(spec_parse_and(leading, 0) == Some((e, 2int)));
    assert(spec_parse_or_rest(leading, 2, e) == e);
    assert(spec_parse_or(leading, 0) == Some(e));
    assert(spec_parse_term(trailing, 0) == Some((e, 1int)));
    assert(spec_parse_and_rest(trailing, 1, e) == Some((e, 1int)));
    assert(spec_parse_and(trailing, 0) == Some((e, 1int)));
    assert(spec_parse_and(trailing, 2) is None);
    assert(spec_parse_term(trailing, 2) is None);
    assert(spec_parse_or_rest(trailing, 1, e) == e);
    assert(spec_parse_or(trailing, 0) == Some(e));
}

/// All terms that occur in an expression, left to right.
pub(crate) fn collect_terms(expr: &SearchExpr) -> (r: Vec<String>)
    ensures
        r@.map_values(|s: String| s@) == spec_terms(expr@),
    decreases expr,
{
    match expr {
        SearchExpr::Term(t) => {
            let mut v: Vec<String> = Vec::new();
            v.push(t.clone());
            proof {
                assert(v@.map_values(|s: String| s@) =~= spec_terms(expr@));
            }
            v
        },
        SearchExpr::And(l, r) => {
            let mut terms = collect_terms(l);
            let mut more = collect_terms(r);
            let ghost a = terms@;
            let ghost b = more@;
            terms.append(&mut more);
            proof {
                assert((a + b).map_values(|s: String| s@) =~= a.map_values(|s: String| s@)
                    + b.map_values(|s: String| s@));
            }
            terms
        },
        SearchExpr::Or(l, r) => {
            let mut terms = collect_terms(l);
            let mut more = collect_terms(r);
            let ghost a = terms@;
            let ghost b = more@;
            terms.append(&mut more);
            proof {
                assert((a + b).map_values(|s: String| s@) =~= a.map_values(|s: String| s@)
                    + b.map_values(|s: String| s@));
            }
            terms
        },
    }
}

} // verus!
