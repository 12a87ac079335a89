//! Display text of one JSON event line.
//!
//! A log line is expected to hold a single JSON record but need not parse.
//! The extractor tries, in order: a nested `message.content` field (a plain
//! string, or an array of content blocks searched first for a `text` block,
//! then a `thinking` block, then a `tool_use` block rendered as
//! `[name] input`); a top-level string `content`; a top-level string
//! `summary`; and finally the raw line itself.  JSON parsing, field lookup
//! and rendering are serde_json's work behind the trusted wrappers below;
//! their contracts speak of a mathematical model of the parsed document
//! (`JsonModel`, abstracted from a value by `json_model`), and the whole
//! extraction order is stated and proved over that model.

use serde_json::Value;
use vstd::prelude::*;
use vstd::string::StringExecFns;

verus! {

broadcast use vstd::string::group_string_axioms;

#[verifier::external_type_specification]
#[verifier::external_body]
pub struct ExValue(Value);

/// Mathematical model of a JSON document, as far as the extractor reads
/// one.  A number carries the text serde_json prints for it, so that a
/// document's rendering is a function of its model.
pub enum JsonModel {
    Null,
    Bool(bool),
    Num(Seq<char>),
    Str(Seq<char>),
    Arr(Seq<JsonModel>),
    Obj(Map<Seq<char>, JsonModel>),
}

/// Whether a string is a single well-formed JSON document; parsing succeeds
/// or fails depending on the string alone.
pub uninterp spec fn json_ok(s: Seq<char>) -> bool;

/// The document a parsed JSON value holds.  This names the contents of an
/// opaque `serde_json::Value`, and every wrapper below states its behaviour
/// over it.
pub uninterp spec fn json_model(v: Value) -> JsonModel;

/// The document a valid JSON string parses to.
pub uninterp spec fn json_doc(s: Seq<char>) -> JsonModel;

/// The compact JSON text a document renders to.
pub uninterp spec fn rendered_of(m: JsonModel) -> Seq<char>;

/// Relies on `serde_json::from_str::<Value>`: whether a string parses as
/// JSON, and what document it parses to, are functions of the string alone.
#[verifier::external_body]
pub(crate) fn parse_json(s: &str) -> (r: Option<Value>)
    ensures
        r is Some <==> json_ok(s@),
        r matches Some(v) ==> json_model(v) == json_doc(s@),
{
    serde_json::from_str::<Value>(s).ok()
}

/// Relies on `serde_json::Value::get`: on an object, the value of the named
/// field if there is one; on any other kind of value, nothing.
#[verifier::external_body]
pub(crate) fn json_get<'a>(v: &'a Value, key: &str) -> (r: Option<&'a Value>)
    ensures
        r is Some <==> (json_model(*v) matches JsonModel::Obj(f) && f.dom().contains(key@)),
        r matches Some(rv) ==> (json_model(*v) matches JsonModel::Obj(f) && f.dom().contains(
            key@,
        ) && json_model(*rv) == f[key@]),
{
    v.get(key)
}

/// Relies on `serde_json::Value::as_str`: the contents of a JSON string
/// value, or nothing for any other kind of value.
#[verifier::external_body]
pub(crate) fn json_as_str<'a>(v: &'a Value) -> (r: Option<&'a str>)
    ensures
        r is Some <==> json_model(*v) is Str,
        r matches Some(rs) ==> (json_model(*v) matches JsonModel::Str(s) && rs@ == s),
{
    v.as_str()
}

/// Relies on `serde_json::Value::as_array`: the elements of a JSON array
/// value, or nothing for any other kind of value.
#[verifier::external_body]
pub(crate) fn json_as_array<'a>(v: &'a Value) -> (r: Option<&'a Vec<Value>>)
    ensures
        r is Some <==> json_model(*v) is Arr,
        r matches Some(ra) ==> (json_model(*v) matches JsonModel::Arr(items) && ra@.map_values(
            |x: Value| json_model(x),
        ) == items),
{
    v.as_array()
}

/// Relies on the `Display` impl of `serde_json::Value`: the value rendered
/// as compact JSON text, a function of the document alone (object fields
/// are kept sorted by key).
#[verifier::external_body]
pub(crate) fn json_render(v: &Value) -> (r: String)
    ensures
        r@ == rendered_of(json_model(*v)),
{
    v.to_string()
}

/// The field names the extractor reads, as character sequences.
pub open spec fn k_message() -> Seq<char> {
    seq!['m', 'e', 's', 's', 'a', 'g', 'e']
}

pub open spec fn k_content() -> Seq<char> {
    seq!['c', 'o', 'n', 't', 'e', 'n', 't']
}

pub open spec fn k_summary() -> Seq<char> {
    seq!['s', 'u', 'm', 'm', 'a', 'r', 'y']
}

pub open spec fn k_type() -> Seq<char> {
    seq!['t', 'y', 'p', 'e']
}

pub open spec fn k_text() -> Seq<char> {
    seq!['t', 'e', 'x', 't']
}

pub open spec fn k_thinking() -> Seq<char> {
    seq!['t', 'h', 'i', 'n', 'k', 'i', 'n', 'g']
}

pub open spec fn k_tool_use() -> Seq<char> {
    seq!['t', 'o', 'o', 'l', '_', 'u', 's', 'e']
}

pub open spec fn k_name() -> Seq<char> {
    seq!['n', 'a', 'm', 'e']
}

pub open spec fn k_input() -> Seq<char> {
    seq!['i', 'n', 'p', 'u', 't']
}

/// What one content block of a `message.content` array holds, as far as the
/// extractor reads it.
pub enum ContentBlock {
    /// A block tagged `text` with a string `text` field.
    Text(String),
    /// A block tagged `thinking` with a string `thinking` field.
    Thinking(String),
    /// A block tagged `tool_use` with a string `name` field and an optional
    /// `input` rendered as JSON text.
    ToolUse(String, Option<String>),
    /// Any other block.
    Other,
}

/// Mathematical model of a content block.
pub enum BlockView {
    Text(Seq<char>),
    Thinking(Seq<char>),
    ToolUse(Seq<char>, Option<Seq<char>>),
    Other,
}

impl View for ContentBlock {
    type V = BlockView;

    open spec fn view(&self) -> BlockView {
        match self {
            ContentBlock::Text(s) => BlockView::Text(s@),
            ContentBlock::Thinking(s) => BlockView::Thinking(s@),
            ContentBlock::ToolUse(n, i) => BlockView::ToolUse(
                n@,
                match i {
                    Some(s) => Some(s@),
                    None => None,
                },
            ),
            ContentBlock::Other => BlockView::Other,
        }
    }
}

/// The models of a block list.
pub open spec fn block_views(bs: Seq<ContentBlock>) -> Seq<BlockView> {
    bs.map_values(|b: ContentBlock| b@)
}

/// The string field `key` of an object model, if it is present and a
/// string.
pub open spec fn str_field(f: Map<Seq<char>, JsonModel>, key: Seq<char>) -> Option<Seq<char>> {
    if f.dom().contains(key) {
        match f[key] {
            JsonModel::Str(s) => Some(s),
            _ => None,
        }
    } else {
        None
    }
}

/// The block a `message.content` array element stands for: its `type` tag
/// decides, and a tagged block with the wrong field shape counts as no
/// block at all.
pub open spec fn spec_block(m: JsonModel) -> BlockView {
    match m {
        JsonModel::Obj(f) => {
            match str_field(f, k_type()) {
                Some(t) => {
                    if t == k_text() {
                        match str_field(f, k_text()) {
                            Some(s) => BlockView::Text(s),
                            None => BlockView::Other,
                        }
                    } else if t == k_thinking() {
                        match str_field(f, k_thinking()) {
                            Some(s) => BlockView::Thinking(s),
                            None => BlockView::Other,
                        }
                    } else if t == k_tool_use() {
                        match str_field(f, k_name()) {
                            Some(nm) => BlockView::ToolUse(
                                nm,
                                if f.dom().contains(k_input()) {
                                    Some(rendered_of(f[k_input()]))
                                } else {
                                    None
                                },
                            ),
                            None => BlockView::Other,
                        }
                    } else {
                        BlockView::Other
                    }
                },
                None => BlockView::Other,
            }
        },
        _ => BlockView::Other,
    }
}

/// The text of the first `text` block at or after `i`.
pub open spec fn first_text(bs: Seq<BlockView>, i: int) -> Option<Seq<char>>
    decreases bs.len() - i,
{
    if i < 0 || i >= bs.len() {
        None
    } else {
        match bs[i] {
            BlockView::Text(s) => Some(s),
            _ => first_text(bs, i + 1),
        }
    }
}

/// The text of the first `thinking` block at or after `i`.
pub open spec fn first_thinking(bs: Seq<BlockView>, i: int) -> Option<Seq<char>>
    decreases bs.len() - i,
{
    if i < 0 || i >= bs.len() {
        None
    } else {
        match bs[i] {
            BlockView::Thinking(s) => Some(s),
            _ => first_thinking(bs, i + 1),
        }
    }
}

/// The synthesized label of a `tool_use` block: `[name]`, with the rendered
/// input appended after a space when there is one.
pub open spec fn tool_label(name: Seq<char>, input: Option<Seq<char>>) -> Seq<char> {
    match input {
        Some(t) => seq!['['] + name + seq![']', ' '] + t,
        None => seq!['['] + name + seq![']'],
    }
}

/// The label of the first `tool_use` block at or after `i`.
pub open spec fn first_tool_label(bs: Seq<BlockView>, i: int) -> Option<Seq<char>>
    decreases bs.len() - i,
{
    if i < 0 || i >= bs.len() {
        None
    } else {
        match bs[i] {
            BlockView::ToolUse(n, inp) => Some(tool_label(n, inp)),
            _ => first_tool_label(bs, i + 1),
        }
    }
}

/// The display text a block list yields: the first `text` block wins, then
/// the first `thinking` block, then the first `tool_use` block.
pub open spec fn spec_select(bs: Seq<BlockView>) -> Option<Seq<char>> {
    if first_text(bs, 0) is Some {
        first_text(bs, 0)
    } else if first_thinking(bs, 0) is Some {
        first_thinking(bs, 0)
    } else {
        first_tool_label(bs, 0)
    }
}

/// The display text a `content` document yields: a string stands for
/// itself, an array goes through block selection, anything else yields
/// nothing.
pub open spec fn spec_extract_content(m: JsonModel) -> Option<Seq<char>> {
    match m {
        JsonModel::Str(s) => Some(s),
        JsonModel::Arr(items) => spec_select(items.map_values(|x: JsonModel| spec_block(x))),
        _ => None,
    }
}

/// The display text of a parsed event: `message.content` first, then a
/// top-level string `content`, then a top-level string `summary`, then the
/// raw line.
pub open spec fn spec_extract_line(doc: JsonModel, line: Seq<char>) -> Seq<char> {
    match doc {
        JsonModel::Obj(f) => {
            let via_message = if f.dom().contains(k_message()) {
                match f[k_message()] {
                    JsonModel::Obj(mf) => if mf.dom().contains(k_content()) {
                        spec_extract_content(mf[k_content()])
                    } else {
                        None
                    },
                    _ => None,
                }
            } else {
                None
            };
            match via_message {
                Some(t) => t,
                None => match str_field(f, k_content()) {
                    Some(s) => s,
                    None => match str_field(f, k_summary()) {
                        Some(s) => s,
                        None => line,
                    },
                },
            }
        },
        _ => line,
    }
}

/// The display text of a raw line: the extraction of its document when it
/// parses as JSON, the line itself when it does not.
pub open spec fn display_text_of(line: Seq<char>) -> Seq<char> {
    if json_ok(line) {
        spec_extract_line(json_doc(line), line)
    } else {
        line
    }
}

/// `Option<String>` as a mathematical option over character sequences.
pub open spec fn opt_text(o: Option<String>) -> Option<Seq<char>> {
    match o {
        Some(s) => Some(s@),
        None => None,
    }
}

/// Whether two string slices hold the same characters.
fn str_eq(a: &str, b: &str) -> (r: bool)
    ensures
        r == (a@ == b@),
{
    let sa = String::from_str(a);
    let sb = String::from_str(b);
    sa == sb
}

/// Pick the display text out of a list of content blocks: the first `text`
/// block, else the first `thinking` block, else the label of the first
/// `tool_use` block, else nothing.
pub fn select_block_text(blocks: &Vec<ContentBlock>) -> (r: Option<String>)
    ensures
        opt_text(r) == spec_select(block_views(blocks@)),
{
    let ghost bv = block_views(blocks@);
    let n = blocks.len();
    let mut i: usize = 0;
    while i < n
        invariant
            bv == block_views(blocks@),
            n == blocks@.len(),
            i <= n,
            first_text(bv, 0) == first_text(bv, i as int),
        decreases n - i,
    {
        proof {
            assert(bv[i as int] == blocks@[i as int]@);
        }
        match &blocks[i] {
            ContentBlock::Text(s) => {
                return Some(s.clone());
            },
            _ => {},
        }
        i += 1;
    }
    let mut i: usize = 0;
    while i < n
        invariant
            bv == block_views(blocks@),
            n == blocks@.len(),
            i <= n,
            first_text(bv, 0) is None,
            first_thinking(bv, 0) == first_thinking(bv, i as int),
        decreases n - i,
    {
        proof {
            assert(bv[i as int] == blocks@[i as int]@);
        }
        match &blocks[i] {
            ContentBlock::Thinking(s) => {
                return Some(s.clone());
            },
            _ => {},
        }
        i += 1;
    }
    let mut i: usize = 0;
    while i < n
        invariant
            bv == block_views(blocks@),
            n == blocks@.len(),
            i <= n,
            first_text(bv, 0) is None,
            first_thinking(bv, 0) is None,
            first_tool_label(bv, 0) == first_tool_label(bv, i as int),
        decreases n - i,
    {
        proof {
            assert(bv[i as int] == blocks@[i as int]@);
        }
        match &blocks[i] {
            ContentBlock::ToolUse(name, input) => {
                let mut out = String::new();
                proof {
                    reveal_strlit("[");
                    reveal_strlit("]");
                    reveal_strlit(" ");
                    assert("["@ =~= seq!['[']);
                    assert("]"@ =~= seq![']']);
                    assert(" "@ =~= seq![' ']);
                }
                out.append("[");
                out.append(name.as_str());
                out.append("]");
                match input {
                    Some(t) => {
                        out.append(" ");
                        out.append(t.as_str());
                        proof {
                            assert(out@ =~= tool_label(name@, Some(t@)));
                        }
                    },
                    None => {
                        proof {
                            assert(out@ =~= tool_label(name@, None));
                        }
                    },
                }
                return Some(out);
            },
            _ => {},
        }
        i += 1;
    }
    None
}

/// One block of a `message.content` array, as far as the extractor reads
/// it.
fn read_block(v: &Value) -> (b: ContentBlock)
    ensures
        b@ == spec_block(json_model(*v)),
{
    proof {
        reveal_strlit("type");
        reveal_strlit("text");
        reveal_strlit("thinking");
        reveal_strlit("tool_use");
        reveal_strlit("name");
        reveal_strlit("input");
        assert("type"@ =~= k_type());
        assert("text"@ =~= k_text());
        assert("thinking"@ =~= k_thinking());
        assert("tool_use"@ =~= k_tool_use());
        assert("name"@ =~= k_name());
        assert("input"@ =~= k_input());
    }
    let ty_v = match json_get(v, "type") {
        Some(t) => t,
        None => {
            return ContentBlock::Other;
        },
    };
    let ty = match json_as_str(ty_v) {
        Some(s) => s,
        None => {
            return ContentBlock::Other;
        },
    };
    if str_eq(ty, "text") {
        match json_get(v, "text") {
            Some(t) => match json_as_str(t) {
                Some(s) => ContentBlock::Text(String::from_str(s)),
                None => ContentBlock::Other,
            },
            None => ContentBlock::Other,
        }
    } else if str_eq(ty, "thinking") {
        match json_get(v, "thinking") {
            Some(t) => match json_as_str(t) {
                Some(s) => ContentBlock::Thinking(String::from_str(s)),
                None => ContentBlock::Other,
            },
            None => ContentBlock::Other,
        }
    } else if str_eq(ty, "tool_use") {
        match json_get(v, "name") {
            Some(n) => match json_as_str(n) {
                Some(nm) => {
                    let input = match json_get(v, "input") {
                        Some(iv) => Some(json_render(iv)),
                        None => None,
                    };
                    ContentBlock::ToolUse(String::from_str(nm), input)
                },
                None => ContentBlock::Other,
            },
            None => ContentBlock::Other,
        }
    } else {
        ContentBlock::Other
    }
}

/// The display text of a `content` value: a plain string stands for
/// itself; an array is searched block by block; anything else yields
/// nothing.
pub fn extract_text_from_content(content: &Value) -> (r: Option<String>)
    ensures
        opt_text(r) == spec_extract_content(json_model(*content)),
{
    match json_as_str(content) {
        Some(s) => {
            return Some(String::from_str(s));
        },
        None => {},
    }
    match json_as_array(content) {
        Some(arr) => {
            let ghost items = json_model(*content)->Arr_0;
            let mut blocks: Vec<ContentBlock> = Vec::new();
            let n = arr.len();
            let mut i: usize = 0;
            while i < n
                invariant
                    n == arr@.len(),
                    i <= n,
                    items == json_model(*content)->Arr_0,
                    json_model(*content) is Arr,
                    arr@.map_values(|x: Value| json_model(x)) == items,
                    block_views(blocks@) == items.take(i as int).map_values(
                        |x: JsonModel| spec_block(x),
                    ),
                decreases n - i,
            {
                proof {
                    assert(arr@.map_values(|x: Value| json_model(x))[i as int] == json_model(
                        arr@[i as int],
                    ));
                }
                let b = read_block(&arr[i]);
                proof {
                    assert(block_views(blocks@.push(b)) =~= block_views(blocks@).push(b@));
                    assert(items.take(i + 1).map_values(|x: JsonModel| spec_block(x))
                        =~= items.take(i as int).map_values(|x: JsonModel| spec_block(x)).push(
                        spec_block(items[i as int]),
                    ));
                }
                blocks.push(b);
                i += 1;
            }
            proof {
                assert(items.take(n as int) =~= items);
            }
            select_block_text(&blocks)
        },
        None => None,
    }
}

/// The display text of one raw log line.  A line that is not valid JSON is
/// returned unchanged: matching already ran over the raw text, and display
/// degrades gracefully.  Otherwise the record's `message.content`,
/// `content` and `summary` fields are tried in that order, with the raw
/// line as the final fallback.
pub fn extract_text_from_json(line: &str) -> (r: String)
    ensures
        r@ == display_text_of(line@),
{
    proof {
        reveal_strlit("message");
        reveal_strlit("content");
        reveal_strlit("summary");
        assert("message"@ =~= k_message());
        assert("content"@ =~= k_content());
        assert("summary"@ =~= k_summary());
    }
    let json = match parse_json(line) {
        Some(v) => v,
        None => {
            return String::from_str(line);
        },
    };
    if let Some(message) = json_get(&json, "message") {
        if let Some(content) = json_get(message, "content") {
            if let Some(text) = extract_text_from_content(content) {
                return text;
            }
        }
    }
    if let Some(content) = json_get(&json, "content") {
        if let Some(s) = json_as_str(content) {
            return String::from_str(s);
        }
    }
    if let Some(summary) = json_get(&json, "summary") {
        if let Some(s) = json_as_str(summary) {
            return String::from_str(s);
        }
    }
    String::from_str(line)
}

} // verus!
