//! The calls into outside crates, each behind a trusted item whose contract
//! states what the crate's documentation or source shows.
//!
//! Where a result takes pages to state (a regular-expression engine, an HTML
//! parser, URL resolution, the HTML entity table), it is named by an
//! uninterpreted function of the call's arguments; where a few lines state it,
//! the contract says it exactly.

use vstd::prelude::*;
use serde_json::Value;
use crate::json::{JsonKind, JsonTree};

verus! {

// ---------------------------------------------------------------------------
// regex
// ---------------------------------------------------------------------------

/// What `regex::Regex::new(pattern)` followed by `replace_all(text, replacement)`
/// returns: `None` when the pattern does not compile.
pub uninterp spec fn regex_replaced(pattern: Seq<char>, text: Seq<char>, replacement: Seq<char>) -> Option<Seq<char>>;

/// What `regex::Regex::new(pattern)` followed by `captures(text)` yields for
/// capture group 1: `None` when the pattern does not compile, when nothing matches,
/// or when the group took no part in the match.
pub uninterp spec fn regex_group1(pattern: Seq<char>, text: Seq<char>) -> Option<Seq<char>>;

/// Compiles `pattern` with `regex::Regex::new` and replaces every match in `text`
/// with `replacement` (`Regex::replace_all`). The result is named, not stated:
/// it is whatever the regex crate computes for these three strings.
#[verifier::external_body]
pub(crate) fn regex_replace(pattern: &str, text: &str, replacement: &str) -> (r: Option<String>)
    ensures
        match r {
            Some(s) => regex_replaced(pattern@, text@, replacement@) == Some(s@),
            None => regex_replaced(pattern@, text@, replacement@) is None,
        },
{
    match regex::Regex::new(pattern) {
        Ok(re) => Some(re.replace_all(text, replacement).to_string()),
        Err(_) => None,
    }
}

/// Compiles `pattern` with `regex::Regex::new` and returns capture group 1 of the
/// first match in `text` (`Regex::captures`, `Captures::get(1)`). Named, not stated.
#[verifier::external_body]
pub(crate) fn regex_capture1(pattern: &str, text: &str) -> (r: Option<String>)
    ensures
        match r {
            Some(s) => regex_group1(pattern@, text@) == Some(s@),
            None => regex_group1(pattern@, text@) is None,
        },
{
    let re = regex::Regex::new(pattern).ok()?;
    re.captures(text).and_then(|c| c.get(1)).map(|m| m.as_str().to_string())
}

/// What `regex::Regex::new(pattern)` gives for `text`, when the pattern compiles:
/// the pieces of the text between its matches (`Regex::split`) and capture group 1
/// of each match (`Regex::captures_iter`, `Captures::get(1)`), both in order.
pub uninterp spec fn regex_split_groups(pattern: Seq<char>, text: Seq<char>) -> Option<(Seq<Seq<char>>, Seq<Option<Seq<char>>>)>;

/// The views of optional strings.
pub open spec fn opt_strings_view(v: Seq<Option<String>>) -> Seq<Option<Seq<char>>> {
    v.map_values(|o: Option<String>| match o {
        Some(s) => Some(s@),
        None => None,
    })
}

/// Compiles `pattern` with `regex::Regex::new`, then splits `text` at its matches
/// and takes capture group 1 of each match. Named, not stated; the one fact stated
/// is that the split gives one piece more than there are matches (it yields the
/// text before each match and then the rest).
#[verifier::external_body]
pub(crate) fn regex_split_captures(pattern: &str, text: &str) -> (r: Option<(Vec<String>, Vec<Option<String>>)>)
    ensures
        match r {
            Some((pieces, groups)) => regex_split_groups(pattern@, text@) == Some((pieces.deep_view(), opt_strings_view(groups@)))
                && pieces.len() == groups.len() + 1,
            None => regex_split_groups(pattern@, text@) is None,
        },
{
    let re = regex::Regex::new(pattern).ok()?;
    let pieces = re.split(text).map(|p| p.to_string()).collect();
    let groups = re.captures_iter(text).map(|c| c.get(1).map(|m| m.as_str().to_string())).collect();
    Some((pieces, groups))
}

// ---------------------------------------------------------------------------
// html_escape
// ---------------------------------------------------------------------------

/// What `html_escape::decode_html_entities` returns: named and numeric character
/// references decoded after the crate's entity table.
pub uninterp spec fn entities_decoded(text: Seq<char>) -> Seq<char>;

/// `html_escape::decode_html_entities`, with its result named.
#[verifier::external_body]
pub(crate) fn decode_entities(text: &str) -> (r: String)
    ensures
        r@ == entities_decoded(text@),
{
    html_escape::decode_html_entities(text).to_string()
}

/// `&`, `<`, `>` escaped as `&amp;`, `&lt;`, `&gt;`; every other character kept.
pub open spec fn escape_text(s: Seq<char>) -> Seq<char>
    decreases s.len(),
{
    if s.len() == 0 {
        Seq::empty()
    } else {
        let c = s.last();
        let e: Seq<char> = if c == '&' {
            "&amp;"@
        } else if c == '<' {
            "&lt;"@
        } else if c == '>' {
            "&gt;"@
        } else {
            seq![c]
        };
        escape_text(s.drop_last()) + e
    }
}

/// `html_escape::encode_text`: as its documentation states, it escapes `&`, `<`
/// and `>` and keeps every other character.
#[verifier::external_body]
pub(crate) fn encode_text(text: &str) -> (r: String)
    ensures
        r@ == escape_text(text@),
{
    html_escape::encode_text(text).to_string()
}

// ---------------------------------------------------------------------------
// urlencoding
// ---------------------------------------------------------------------------

/// A byte that `urlencoding::encode` keeps: an ASCII letter or digit, `-`, `_`, `.` or `~`.
pub open spec fn url_safe_byte(b: u8) -> bool {
    (48 <= b <= 57) || (65 <= b <= 90) || (97 <= b <= 122) || b == 45 || b == 95 || b == 46 || b == 126
}

/// An upper-case hexadecimal digit.
pub open spec fn hex_upper(d: u8) -> char {
    if d < 10 {
        (48 + d) as char
    } else {
        (55 + d) as char
    }
}

/// Percent-encoding of a byte string.
pub open spec fn percent_encode(b: Seq<u8>) -> Seq<char>
    decreases b.len(),
{
    if b.len() == 0 {
        Seq::empty()
    } else {
        let x = b.last();
        let e: Seq<char> = if url_safe_byte(x) {
            seq![x as char]
        } else {
            seq!['%', hex_upper(x / 16), hex_upper(x % 16)]
        };
        percent_encode(b.drop_last()) + e
    }
}

/// `urlencoding::encode`: as its documentation and source show, every UTF-8 byte
/// except ASCII letters, digits and `-_.~` becomes `%` and two upper-case hex digits.
#[verifier::external_body]
pub(crate) fn url_encode(text: &str) -> (r: String)
    ensures
        r@ == percent_encode(vstd::utf8::encode_utf8(text@)),
{
    urlencoding::encode(text).into_owned()
}

// ---------------------------------------------------------------------------
// url (through reqwest::Url)
// ---------------------------------------------------------------------------

/// What `reqwest::Url::parse` yields for a text: `None` when it is not a URL;
/// otherwise its serialization (`to_string`), its scheme and its host (`host_str`).
pub uninterp spec fn parsed_url(text: Seq<char>) -> Option<(Seq<char>, Seq<char>, Option<Seq<char>>)>;

/// What `reqwest::Url::parse(base)` followed by `join(reference)` and `to_string`
/// yields: `None` when either step fails.
pub uninterp spec fn joined_url(base: Seq<char>, reference: Seq<char>) -> Option<Seq<char>>;

/// The parts of a parsed URL, as plain strings.
pub struct UrlParts {
    pub text: String,
    pub scheme: String,
    pub host: Option<String>,
}

/// The view of parsed URL parts.
pub open spec fn url_parts_view(u: Option<UrlParts>) -> Option<(Seq<char>, Seq<char>, Option<Seq<char>>)> {
    match u {
        Some(p) => Some((p.text@, p.scheme@, match p.host {
            Some(h) => Some(h@),
            None => None,
        })),
        None => None,
    }
}

/// `reqwest::Url::parse`, with the URL's serialization, scheme and host taken out.
#[verifier::external_body]
pub(crate) fn url_parse(text: &str) -> (r: Option<UrlParts>)
    ensures
        url_parts_view(r) == parsed_url(text@),
{
    let url = reqwest::Url::parse(text).ok()?;
    Some(UrlParts {
        text: url.to_string(),
        scheme: url.scheme().to_string(),
        host: url.host_str().map(|h| h.to_string()),
    })
}

/// `reqwest::Url::parse(base)` and `Url::join(reference)`, serialized.
#[verifier::external_body]
pub(crate) fn url_join(base: &str, reference: &str) -> (r: Option<String>)
    ensures
        match r {
            Some(s) => joined_url(base@, reference@) == Some(s@),
            None => joined_url(base@, reference@) is None,
        },
{
    let url = reqwest::Url::parse(base).ok()?;
    url.join(reference).ok().map(|u| u.to_string())
}

// ---------------------------------------------------------------------------
// serde_json
// ---------------------------------------------------------------------------

/// What `serde_json::from_str::<serde_json::Value>` reports for a text: `None` when
/// the text is one JSON value, else the message of its error (`Error::to_string`).
pub uninterp spec fn json_parse_error(text: Seq<char>) -> Option<Seq<char>>;

/// Parses a text with `serde_json::from_str::<serde_json::Value>` and keeps only
/// whether it parsed, with the error's message when it did not.
#[verifier::external_body]
pub(crate) fn json_check(text: &str) -> (r: Result<(), String>)
    ensures
        match r {
            Ok(()) => json_parse_error(text@) is None,
            Err(e) => json_parse_error(text@) == Some(e@),
        },
{
    match serde_json::from_str::<serde_json::Value>(text) {
        Ok(_) => Ok(()),
        Err(e) => Err(e.to_string()),
    }
}

/// A parsed JSON value (`serde_json::Value`), carried through unread.
#[verifier::external_type_specification]
#[verifier::external_body]
pub struct ExJsonValue(Value);

/// One value of a flattened JSON document: kind, text (a string's characters, the
/// compact notation of any other value, empty for null), member names, children.
pub type JsonNodeParts = (JsonKind, String, Vec<String>, Vec<usize>);

/// The mathematical values of flattened JSON values.
pub open spec fn nodes_view(v: Seq<JsonNodeParts>) -> Seq<(JsonKind, Seq<char>, Seq<Seq<char>>, Seq<usize>)> {
    v.map_values(|n: JsonNodeParts| (n.0, n.1@, n.2.deep_view(), n.3@))
}

/// What `serde_json::from_str::<serde_json::Value>` gives for a text, flattened
/// children first: the values and the root's position; `None` when it does not parse.
pub uninterp spec fn json_nodes_of(text: Seq<char>) -> Option<(Seq<(JsonKind, Seq<char>, Seq<Seq<char>>, Seq<usize>)>, int)>;

/// Parses a text with `serde_json::from_str::<serde_json::Value>` and flattens the
/// value, children before their parent (`flatten_json`). The result is named, not
/// stated; the facts stated are those of the flattening: the root comes last, each
/// value's children come before it, an object has one name per member, and only
/// arrays and objects have children.
#[verifier::external_body]
pub(crate) fn parse_json_nodes(text: &str) -> (r: Result<(Vec<JsonNodeParts>, usize), String>)
    ensures
        match r {
            Ok((ns, root)) => json_parse_error(text@) is None && json_nodes_of(text@) == Some(
                (nodes_view(ns@), root as int),
            ) && root + 1 == ns.len() && (JsonTree { nodes: nodes_view(ns@) }).wf(),
            Err(e) => json_parse_error(text@) == Some(e@) && json_nodes_of(text@) is None,
        },
{
    let value = serde_json::from_str::<Value>(text).map_err(|e| e.to_string())?;
    let mut nodes = Vec::new();
    let root = flatten_json(&value, &mut nodes);
    Ok((nodes, root))
}

/// Appends a parsed value to `nodes`, its elements or member values first (each
/// flattened the same way, in order), and returns its position. One node per
/// `serde_json::Value`; the facts are stated by `parse_json_nodes`, its one caller.
#[verifier::external_body]
fn flatten_json(value: &Value, nodes: &mut Vec<JsonNodeParts>) -> usize {
    let (kind, text, keys) = json_head(value);
    let kids: Vec<&Value> = match value {
        Value::Array(a) => a.iter().collect(),
        Value::Object(m) => m.values().collect(),
        _ => Vec::new(),
    };
    let items = kids.into_iter().map(|v| flatten_json(v, nodes)).collect();
    nodes.push((kind, text, keys, items));
    nodes.len() - 1
}

/// The kind of a parsed value, its text (a string's characters, `""` for null, the
/// compact notation, `Value::to_string`, otherwise) and its member names. Called by
/// `flatten_json` alone.
#[verifier::external_body]
fn json_head(value: &Value) -> (JsonKind, String, Vec<String>) {
    let kind = match value {
        Value::Null => JsonKind::Null,
        Value::Bool(_) => JsonKind::Bool,
        Value::Number(_) => JsonKind::Number,
        Value::String(_) => JsonKind::Str,
        Value::Array(_) => JsonKind::Array,
        Value::Object(_) => JsonKind::Object,
    };
    let text = match value {
        Value::String(s) => s.clone(),
        Value::Null => String::new(),
        _ => value.to_string(),
    };
    (kind, text, value.as_object().map_or(Vec::new(), |m| m.keys().cloned().collect()))
}

/// A character inside a JSON string as serde_json writes it: `"` and `\\` behind a
/// backslash, control characters as `\\n`, `\\r`, `\\t`, `\\b`, `\\f` or `\\u00xx`, any
/// other character as it is.
pub open spec fn string_escape(c: char) -> Seq<char> {
    if c == '"' {
        "\\\""@
    } else if c == '\\' {
        "\\\\"@
    } else {
        crate::model::control_escape(c)
    }
}

/// The characters of a text, each as serde_json writes it inside a string.
pub open spec fn escaped(s: Seq<char>) -> Seq<char>
    decreases s.len(),
{
    if s.len() == 0 {
        Seq::empty()
    } else {
        escaped(s.drop_last()) + string_escape(s.last())
    }
}

/// A text as a JSON string.
pub open spec fn json_quoted(s: Seq<char>) -> Seq<char> {
    "\""@ + escaped(s) + "\""@
}

/// A text written as a JSON string by serde_json (`Value::String(..).to_string()`,
/// which escapes by the table of `ser.rs`): stated, as `json_quoted`.
#[verifier::external_body]
pub(crate) fn json_quote(s: &str) -> (r: String)
    ensures
        r@ == json_quoted(s@),
{
    Value::String(s.to_owned()).to_string()
}

/// What `serde_json::from_str::<Vec<serde_json::Value>>` reports for a text: `None`
/// when the text is one JSON array, else the message of its error.
pub uninterp spec fn json_array_error(text: Seq<char>) -> Option<Seq<char>>;

/// Parses a text with `serde_json::from_str::<Vec<serde_json::Value>>` and keeps only
/// whether it parsed, with the error's message when it did not. A text parses so
/// exactly when it parses as one JSON value that is an array: that is stated too.
#[verifier::external_body]
pub(crate) fn json_array_check(text: &str) -> (r: Result<(), String>)
    ensures
        match r {
            Ok(()) => json_array_error(text@) is None && json_parse_error(text@) is None && (json_nodes_of(text@) matches Some(
                (ns, root),
            ) && 0 <= root < ns.len() && ns[root].0 == JsonKind::Array),
            Err(e) => json_array_error(text@) == Some(e@),
        },
{
    match serde_json::from_str::<Vec<serde_json::Value>>(text) {
        Ok(_) => Ok(()),
        Err(e) => Err(e.to_string()),
    }
}

// ---------------------------------------------------------------------------
// uuid
// ---------------------------------------------------------------------------

/// A hexadecimal digit, in either case.
pub open spec fn is_hex(c: char) -> bool {
    ('0' <= c && c <= '9') || ('a' <= c && c <= 'f') || ('A' <= c && c <= 'F')
}

/// The hyphenated form of a UUID: 36 characters, hyphens at 8, 13, 18 and 23,
/// hexadecimal digits elsewhere.
pub open spec fn hyphenated_uuid(s: Seq<char>) -> bool {
    &&& s.len() == 36
    &&& forall|i: int| 0 <= i < 36 ==> if i == 8 || i == 13 || i == 18 || i == 23 {
        s[i] == '-'
    } else {
        is_hex(#[trigger] s[i])
    }
}

/// The texts `uuid::Uuid::parse_str` accepts: 32 hexadecimal digits; the
/// hyphenated form; the hyphenated form in braces; or `urn:uuid:` (in any ASCII
/// case) before the hyphenated form.
pub open spec fn is_uuid(s: Seq<char>) -> bool {
    ||| (s.len() == 32 && forall|i: int| 0 <= i < 32 ==> is_hex(#[trigger] s[i]))
    ||| hyphenated_uuid(s)
    ||| (s.len() == 38 && s[0] == '{' && s[37] == '}' && hyphenated_uuid(s.subrange(1, 37)))
    ||| (s.len() == 45 && crate::text::ascii_lower(s.subrange(0, 9)) == "urn:uuid:"@ && hyphenated_uuid(s.subrange(9, 45)))
}

/// `uuid::Uuid::parse_str(text).is_ok()`: the parser dispatches on the length in
/// bytes and accepts only ASCII, so on characters it accepts exactly `is_uuid`.
#[verifier::external_body]
pub(crate) fn uuid_valid(text: &str) -> (b: bool)
    ensures
        b == is_uuid(text@),
{
    uuid::Uuid::parse_str(text).is_ok()
}

// ---------------------------------------------------------------------------
// std
// ---------------------------------------------------------------------------

/// What `str::to_lowercase` returns (full Unicode lower case).
pub uninterp spec fn unicode_lowercase(text: Seq<char>) -> Seq<char>;

/// `str::to_lowercase`, with its result named.
#[verifier::external_body]
pub(crate) fn to_lowercase(text: &str) -> (r: String)
    ensures
        r@ == unicode_lowercase(text@),
{
    text.to_lowercase()
}

// ---------------------------------------------------------------------------
// scraper
// ---------------------------------------------------------------------------

#[verifier::external_type_specification]
#[verifier::external_body]
pub struct ExHtml(scraper::Html);

/// An HTML page parsed by `scraper::Html::parse_document`, with the text it was
/// parsed from. Its nodes are numbered in the order of the parsed tree.
pub struct HtmlPage {
    doc: scraper::Html,
    source: String,
}

impl View for HtmlPage {
    type V = Seq<char>;

    closed spec fn view(&self) -> Seq<char> {
        self.source@
    }
}

/// The number of the root `<html>` element of the page parsed from a text.
pub uninterp spec fn html_root_of(source: Seq<char>) -> usize;

/// The elements that the CSS selector `css` matches inside element `node` of the
/// page parsed from `source`, in document order (`ElementRef::select`); `None`
/// when `css` is not a valid selector or `node` is not an element.
pub uninterp spec fn html_selected(source: Seq<char>, node: int, css: Seq<char>) -> Option<Seq<usize>>;

/// The value of attribute `name` of element `node` (`Element::attr`).
pub uninterp spec fn html_attribute(source: Seq<char>, node: int, name: Seq<char>) -> Option<Seq<char>>;

/// The serialized content of element `node` (`ElementRef::inner_html`).
pub uninterp spec fn html_inner_of(source: Seq<char>, node: int) -> Seq<char>;

/// The text nodes inside element `node`, concatenated (`ElementRef::text`).
pub uninterp spec fn html_text_of(source: Seq<char>, node: int) -> Seq<char>;

/// `scraper::Html::parse_document`.
#[verifier::external_body]
pub(crate) fn parse_html(source: &str) -> (page: HtmlPage)
    ensures
        page@ == source@,
{
    HtmlPage { doc: scraper::Html::parse_document(source), source: source.to_string() }
}

/// `Html::root_element`, by number.
#[verifier::external_body]
pub(crate) fn html_root(page: &HtmlPage) -> (n: usize)
    ensures
        n == html_root_of(page@),
{
    let root = page.doc.root_element();
    page.doc.tree.nodes().position(|n| n.id() == root.id()).unwrap_or(0)
}

/// `Selector::parse(css)` and `ElementRef::select`, by number.
#[verifier::external_body]
pub(crate) fn html_select(page: &HtmlPage, node: usize, css: &str) -> (r: Option<Vec<usize>>)
    ensures
        match r {
            Some(v) => html_selected(page@, node as int, css@) == Some(v@),
            None => html_selected(page@, node as int, css@) is None,
        },
{
    let selector = scraper::Selector::parse(css).ok()?;
    let element = page.doc.tree.nodes().nth(node).and_then(scraper::ElementRef::wrap)?;
    let found = element.select(&selector);
    Some(found.map(|e| page.doc.tree.nodes().position(|n| n.id() == e.id()).unwrap_or(0)).collect())
}

/// `Element::attr`, by number.
#[verifier::external_body]
pub(crate) fn html_attr(page: &HtmlPage, node: usize, name: &str) -> (r: Option<String>)
    ensures
        match r {
            Some(s) => html_attribute(page@, node as int, name@) == Some(s@),
            None => html_attribute(page@, node as int, name@) is None,
        },
{
    let element = page.doc.tree.nodes().nth(node).and_then(scraper::ElementRef::wrap)?;
    element.value().attr(name).map(|v| v.to_string())
}

/// `ElementRef::inner_html`, by number.
#[verifier::external_body]
pub(crate) fn html_inner(page: &HtmlPage, node: usize) -> (r: String)
    ensures
        r@ == html_inner_of(page@, node as int),
{
    let element = page.doc.tree.nodes().nth(node).and_then(scraper::ElementRef::wrap);
    element.map(|e| e.inner_html()).unwrap_or_default()
}

/// `ElementRef::text`, concatenated, by number.
#[verifier::external_body]
pub(crate) fn html_text(page: &HtmlPage, node: usize) -> (r: String)
    ensures
        r@ == html_text_of(page@, node as int),
{
    let element = page.doc.tree.nodes().nth(node).and_then(scraper::ElementRef::wrap);
    element.map(|e| e.text().collect::<String>()).unwrap_or_default()
}

} // verus!
