//! URLs of book sources: resolving relative links, rendering request
//! templates, and the guard that every request passes before it is sent.

use vstd::prelude::*;
use crate::address::{private_ipv4, spec_private_ipv4};
use crate::json::{
    eval_json, opt_json, parse_json_opt, spec_eval_json, value_get, value_get_exec, JsonDoc, JsonKind, JsonTree,
};
use crate::outside::{joined_url, parsed_url, percent_encode, url_encode, url_join, url_parse};
use crate::rules::{
    fill, pieces_view, spec_split_request, split_request, split_request_view, template_parts,
    template_parts_exec,
};
use crate::text::{
    ascii_lower, ascii_lower_exec, chars_of, dec, ends_with, ends_with_exec, find, find_from_exec,
    push_str, replace_all, replace_exec, starts_with, starts_with_exec, string_from, string_of,
    trim_bounds, trim_start, usize_to_string,
};

verus! {

/// The default Legado source repository.
pub const DEFAULT_SOURCE_URL: &'static str = "https://legado.aoaostar.com/sources/b778fe6b.json";

/// The part of a URL before its first `#`.
pub open spec fn before_fragment(s: Seq<char>) -> Seq<char> {
    match find(s, "#"@) {
        Some(i) => s.subrange(0, i),
        None => s,
    }
}

/// A link resolved against the page it was found on: absolute `http(s)://` links
/// stay, others are joined to the base (without its fragment), or kept when that
/// fails; request options after the link are kept after a comma.
pub open spec fn spec_absolute(base: Seq<char>, value: Seq<char>) -> Seq<char> {
    let target = spec_split_request(value).0;
    let options = spec_split_request(value).1;
    let resolved = if starts_with(target, "http://"@) || starts_with(target, "https://"@) {
        target
    } else {
        match joined_url(before_fragment(base), target) {
            Some(u) => u,
            None => target,
        }
    };
    match options {
        Some(o) => resolved + ","@ + o,
        None => resolved,
    }
}

/// Placeholders replaced by the URL-encoded value of their rule on value `root`.
pub open spec fn fill_encoded(doc: JsonTree, root: int, s: Seq<char>) -> Seq<char> {
    fill(template_parts(s), |e: Seq<char>| percent_encode(vstd::utf8::encode_utf8(spec_eval_json(doc, root, e))))
}

/// Placeholders replaced by the value of their rule on value `root`.
pub open spec fn fill_plain(doc: JsonTree, root: int, s: Seq<char>) -> Seq<char> {
    fill(template_parts(s), |e: Seq<char>| spec_eval_json(doc, root, e))
}

/// A request template rendered: `{{key}}` becomes the URL-encoded search key in the
/// URL and the plain key in the options, `{{page}}` the page number, and, when a
/// JSON value is given, every other `{{rule}}` the value of that rule (URL-encoded
/// in the URL).
pub open spec fn spec_render_url(template: Seq<char>, ctx: Option<(JsonTree, int)>, key: Seq<char>, page: nat) -> Seq<char> {
    let target = spec_split_request(template).0;
    let options = spec_split_request(template).1;
    let r0 = replace_all(
        replace_all(target, "{{key}}"@, percent_encode(vstd::utf8::encode_utf8(key))),
        "{{page}}"@,
        dec(page),
    );
    let result = match ctx {
        Some((doc, v)) => fill_encoded(doc, v, r0),
        None => r0,
    };
    match options {
        Some(o) => {
            let o0 = replace_all(replace_all(o, "{{key}}"@, key), "{{page}}"@, dec(page));
            let rendered = match ctx {
                Some((doc, v)) => fill_plain(doc, v, o0),
                None => o0,
            };
            result + ","@ + rendered
        },
        None => result,
    }
}

/// Resolves `value` against the page address `base`.
pub fn absolute(base: &str, value: &str) -> (r: String)
    ensures
        r@ == spec_absolute(base@, value@),
{
    let (target, options) = split_request(value);
    let tv = chars_of(target.as_str());
    let bv = chars_of(base);
    let hash = chars_of("#");
    let base_main = match find_from_exec(&bv, &hash, 0) {
        Some(i) => string_from(&bv, 0, i),
        None => string_of(&bv),
    };
    let resolved = if starts_with_exec(&tv, &chars_of("http://")) || starts_with_exec(&tv, &chars_of("https://")) {
        target
    } else {
        match url_join(base_main.as_str(), target.as_str()) {
            Some(u) => u,
            None => target,
        }
    };
    match options {
        Some(o) => {
            let mut r = resolved;
            push_str(&mut r, ",");
            push_str(&mut r, o.as_str());
            r
        },
        None => resolved,
    }
}

/// Replaces the placeholders of `s` by the values of their rules on value `root`,
/// URL-encoded when `encode` holds.
fn fill_rules(doc: &JsonDoc, root: usize, s: &str, encode: bool) -> (r: String)
    requires
        doc.wf(),
        root < doc.size(),
    ensures
        r@ == if encode { fill_encoded(doc@, root as int, s@) } else { fill_plain(doc@, root as int, s@) },
{
    let sv = chars_of(s);
    let parts = template_parts_exec(&sv);
    let ghost f = if encode {
        |e: Seq<char>| percent_encode(vstd::utf8::encode_utf8(spec_eval_json(doc@, root as int, e)))
    } else {
        |e: Seq<char>| spec_eval_json(doc@, root as int, e)
    };
    let mut out = String::new();
    let mut i: usize = 0;
    assert(pieces_view(parts@).subrange(0, 0) =~= Seq::<(Seq<char>, bool)>::empty());
    while i < parts.len()
        invariant
            doc.wf(),
            root < doc.size(),
            i <= parts.len(),
            f == if encode {
                |e: Seq<char>| percent_encode(vstd::utf8::encode_utf8(spec_eval_json(doc@, root as int, e)))
            } else {
                |e: Seq<char>| spec_eval_json(doc@, root as int, e)
            },
            out@ == fill(pieces_view(parts@).subrange(0, i as int), f),
        decreases parts.len() - i,
    {
        let ghost pv = pieces_view(parts@);
        proof {
            assert(pv.subrange(0, i + 1) =~= pv.subrange(0, i as int).push(pv[i as int]));
            crate::json::lemma_fill_push(pv.subrange(0, i as int), pv[i as int], f);
        }
        if parts[i].is_expr {
            let value = eval_json(doc, root, parts[i].text.as_str());
            if encode {
                let enc = url_encode(value.as_str());
                push_str(&mut out, enc.as_str());
            } else {
                push_str(&mut out, value.as_str());
            }
        } else {
            push_str(&mut out, parts[i].text.as_str());
        }
        i += 1;
    }
    assert(pieces_view(parts@).subrange(0, parts@.len() as int) =~= pieces_view(parts@));
    out
}

/// `str::replace` on strings, for a pattern given as a literal.
fn replace_str(s: &str, p: &str, t: &str) -> (r: String)
    requires
        p@.len() > 0,
    ensures
        r@ == replace_all(s@, p@, t@),
{
    replace_exec(&chars_of(s), &chars_of(p), &chars_of(t))
}

/// Renders a request template for the search `key` and `page`, filling rule
/// placeholders from value `root` of `doc` when one is given.
pub fn render_url(template: &str, doc: &JsonDoc, root: Option<usize>, key: &str, page: usize) -> (r: String)
    requires
        root matches Some(v) ==> v < doc.size(),
    ensures
        r@ == spec_render_url(template@, match root {
            Some(v) => Some((doc@, v as int)),
            None => None,
        }, key@, page as nat),
{
    proof {
        use_type_invariant(doc);
        reveal_strlit("{{key}}");
        reveal_strlit("{{page}}");
    }
    let (target, options) = split_request(template);
    let page_text = usize_to_string(page);
    let encoded_key = url_encode(key);
    let r1 = replace_str(target.as_str(), "{{key}}", encoded_key.as_str());
    let r0 = replace_str(r1.as_str(), "{{page}}", page_text.as_str());
    let result = match root {
        Some(v) => fill_rules(doc, v, r0.as_str(), true),
        None => r0,
    };
    match options {
        Some(o) => {
            let o1 = replace_str(o.as_str(), "{{key}}", key);
            let o0 = replace_str(o1.as_str(), "{{page}}", page_text.as_str());
            let rendered = match root {
                Some(v) => fill_rules(doc, v, o0.as_str(), false),
                None => o0,
            };
            let mut r = result;
            push_str(&mut r, ",");
            push_str(&mut r, rendered.as_str());
            r
        },
        None => result,
    }
}

/// The host of a request is the machine itself.
pub open spec fn is_local_host(host: Seq<char>) -> bool {
    ||| host == "localhost"@
    ||| ends_with(host, ".localhost"@)
    ||| host == "0.0.0.0"@
    ||| host == "::1"@
}

/// The checks a request of a book source passes before it is sent: a valid URL,
/// an HTTP(S) scheme, a host other than the machine itself, and no private,
/// loopback or link-local IPv4 address (an IPv6 host keeps its brackets and is
/// never taken for an address here). The result is the host in ASCII lower case.
pub open spec fn spec_fetch_target(url_spec: Seq<char>) -> Result<Seq<char>, Seq<char>> {
    let url = spec_split_request(url_spec).0;
    match parsed_url(url) {
        None => Err("书源生成了无效 URL"@),
        Some((_, scheme, host)) => if scheme != "http"@ && scheme != "https"@ {
            Err("书源只允许 HTTP/HTTPS 请求"@)
        } else {
            let h = ascii_lower(match host {
                Some(x) => x,
                None => Seq::empty(),
            });
            if is_local_host(h) {
                Err("已阻止书源访问本机地址"@)
            } else if spec_private_ipv4(h) {
                Err("已阻止书源访问内网地址"@)
            } else {
                Ok(h)
            }
        },
    }
}

/// The view of a text result.
pub open spec fn text_result_view(r: Result<String, String>) -> Result<Seq<char>, Seq<char>> {
    match r {
        Ok(s) => Ok(s@),
        Err(e) => Err(e@),
    }
}

/// Checks the URL of a request of a book source; returns its host in lower case.
pub fn fetch_target(url_spec: &str) -> (r: Result<String, String>)
    ensures
        text_result_view(r) == spec_fetch_target(url_spec@),
        r matches Ok(h) ==> !is_local_host(h@) && !spec_private_ipv4(h@),
{
    let (url, _) = split_request(url_spec);
    match url_parse(url.as_str()) {
        None => Err("书源生成了无效 URL".to_owned()),
        Some(parts) => {
            let sv = chars_of(parts.scheme.as_str());
            if !crate::html::eq_chars(&sv, "http") && !crate::html::eq_chars(&sv, "https") {
                return Err("书源只允许 HTTP/HTTPS 请求".to_owned());
            }
            let hv = match &parts.host {
                Some(h) => chars_of(h.as_str()),
                None => Vec::new(),
            };
            let lower = ascii_lower_exec(&hv);
            if crate::html::eq_chars(&lower, "localhost") || ends_with_exec(&lower, &chars_of(".localhost"))
                || crate::html::eq_chars(&lower, "0.0.0.0") || crate::html::eq_chars(&lower, "::1") {
                return Err("已阻止书源访问本机地址".to_owned());
            }
            let h = string_of(&lower);
            if private_ipv4(h.as_str()) {
                return Err("已阻止书源访问内网地址".to_owned());
            }
            Ok(h)
        },
    }
}

/// The message for an HTTP failure status of a book source.
pub open spec fn spec_http_failure(code: u16, status: Seq<char>) -> Seq<char> {
    if code == 404 {
        "站点已失效或搜索地址已改版（404）"@
    } else if code == 403 {
        "站点拒绝访问，可能需要登录或验证（403）"@
    } else if code == 429 {
        "站点请求过于频繁（429）"@
    } else {
        "站点返回 HTTP "@ + status
    }
}

/// The message for an HTTP failure status `code`, whose full text is `status`
/// (such as `500 Internal Server Error`).
pub fn http_failure(code: u16, status: &str) -> (r: String)
    ensures
        r@ == spec_http_failure(code, status@),
{
    if code == 404 {
        "站点已失效或搜索地址已改版（404）".to_owned()
    } else if code == 403 {
        "站点拒绝访问，可能需要登录或验证（403）".to_owned()
    } else if code == 429 {
        "站点请求过于频繁（429）".to_owned()
    } else {
        let mut r = "站点返回 HTTP ".to_owned();
        push_str(&mut r, status);
        r
    }
}

/// A response body in JSON: it begins, after whitespace, with `{` or `[`.
pub open spec fn is_json_body(body: Seq<char>) -> bool {
    let t = trim_start(body);
    t.len() > 0 && (t[0] == '{' || t[0] == '[')
}

/// Whether a response body is JSON.
pub fn json_body(body: &str) -> (b: bool)
    ensures
        b == is_json_body(body@),
{
    let v = chars_of(body);
    let (lo, _) = trim_bounds(&v);
    lo < v.len() && (v[lo] == '{' || v[lo] == '[')
}

/// A link that is already an absolute HTTP(S) URL, without request options, is
/// kept as it is, whatever page it was found on.
pub proof fn lemma_absolute_keeps_absolute(base: Seq<char>, value: Seq<char>)
    requires
        starts_with(value, "http://"@) || starts_with(value, "https://"@),
        spec_split_request(value).1 is None,
    ensures
        spec_absolute(base, value) == value,
{
}

// ---------------------------------------------------------------------------
// The request a source makes
// ---------------------------------------------------------------------------

/// The options and headers of a source are JSON written with single quotes too:
/// every `'` becomes `"` before they are parsed.
pub fn json_quotes(raw: &str) -> (r: String)
    ensures
        r@ == replace_all(raw@, "'"@, "\""@),
{
    proof {
        reveal_strlit("'");
    }
    replace_str(raw, "'", "\"")
}

/// The body a request sends: a text as it is, or any other JSON value in its
/// JSON notation (sent as JSON).
pub enum RequestBody {
    Text(String),
    Json(String),
}

/// The mathematical value of a `RequestBody`.
pub enum BodyView {
    Text(Seq<char>),
    Json(Seq<char>),
}

/// The view of an optional request body.
pub open spec fn body_view(b: Option<RequestBody>) -> Option<BodyView> {
    match b {
        Some(RequestBody::Text(t)) => Some(BodyView::Text(t@)),
        Some(RequestBody::Json(t)) => Some(BodyView::Json(t@)),
        None => None,
    }
}

/// What a request of a source sends: whether it is a POST, its body, and the
/// source's headers.
pub struct RequestPlan {
    pub post: bool,
    pub body: Option<RequestBody>,
    pub headers: Vec<(String, String)>,
}

/// The JSON notation of value `n`.
pub open spec fn json_text(doc: JsonTree, n: int) -> Seq<char> {
    if doc.kind(n) == JsonKind::Null {
        "null"@
    } else {
        doc.text(n)
    }
}

/// A request is a POST when its options give a `method` that is `post` in any
/// ASCII case.
pub open spec fn spec_is_post(options: Option<(JsonTree, int)>) -> bool {
    match options {
        Some((doc, root)) => match value_get(doc, root, "method"@) {
            Some(m) => doc.kind(m as int) == JsonKind::Str && ascii_lower(doc.text(m as int)) == "post"@,
            None => false,
        },
        None => false,
    }
}

/// The body the options of a request give.
pub open spec fn spec_request_body(options: Option<(JsonTree, int)>) -> Option<BodyView> {
    match options {
        Some((doc, root)) => match value_get(doc, root, "body"@) {
            Some(b) => Some(
                if doc.kind(b as int) == JsonKind::Str {
                    BodyView::Text(doc.text(b as int))
                } else {
                    BodyView::Json(json_text(doc, b as int))
                },
            ),
            None => None,
        },
        None => None,
    }
}

/// The first `k` members of object `v` whose values are texts, as header pairs.
pub open spec fn header_pairs(doc: JsonTree, v: int, k: int) -> Seq<(Seq<char>, Seq<char>)>
    decreases k,
{
    if k <= 0 {
        Seq::empty()
    } else {
        let prev = header_pairs(doc, v, k - 1);
        let item = doc.items(v)[k - 1] as int;
        if doc.kind(item) == JsonKind::Str {
            prev.push((doc.keys(v)[k - 1], doc.text(item)))
        } else {
            prev
        }
    }
}

/// The headers a source declares: the text members of its header object, in order.
pub open spec fn spec_request_headers(header: Option<(JsonTree, int)>) -> Seq<(Seq<char>, Seq<char>)> {
    match header {
        Some((doc, root)) => if doc.kind(root) == JsonKind::Object {
            header_pairs(doc, root, doc.items(root).len() as int)
        } else {
            Seq::empty()
        },
        None => Seq::empty(),
    }
}

/// The JSON of a request's options or a source's header declaration: single
/// quotes read as double quotes, and the text parsed, when it parses.
pub open spec fn quoted_json(raw: Seq<char>) -> Option<(JsonTree, int)> {
    opt_json(replace_all(raw, "'"@, "\""@))
}

/// What a request of a source sends, from the raw text of its options (after the
/// URL) and of the source's header declaration.
pub fn request_plan_of(options_raw: &Option<String>, header_raw: &str) -> (p: RequestPlan)
    ensures
        p.post == spec_is_post(match options_raw {
            Some(o) => quoted_json(o@),
            None => None,
        }),
        body_view(p.body) == spec_request_body(match options_raw {
            Some(o) => quoted_json(o@),
            None => None,
        }),
        crate::book::pairs_view(p.headers@) == spec_request_headers(quoted_json(header_raw@)),
{
    let options = match options_raw {
        Some(o) => parse_json_opt(json_quotes(o.as_str()).as_str()),
        None => None,
    };
    let header = parse_json_opt(json_quotes(header_raw).as_str());
    request_plan(&options, &header)
}

/// What a request of a source sends, from its options and its header declaration
/// (each as parsed JSON, when it parsed).
pub fn request_plan(options: &Option<(JsonDoc, usize)>, header: &Option<(JsonDoc, usize)>) -> (p: RequestPlan)
    requires
        options matches Some((doc, root)) ==> root < doc.size(),
        header matches Some((doc, root)) ==> root < doc.size(),
    ensures
        p.post == spec_is_post(crate::toc::json_view(*options)),
        body_view(p.body) == spec_request_body(crate::toc::json_view(*options)),
        crate::book::pairs_view(p.headers@) == spec_request_headers(crate::toc::json_view(*header)),
{
    proof {
        reveal_strlit("method");
        reveal_strlit("body");
    }
    let (post, body) = match options {
        Some((doc, root)) => {
            proof {
                use_type_invariant(doc);
            }
            let post = match value_get_exec(doc, *root, &chars_of("method")) {
                Some(m) => doc.kind_of(m) == JsonKind::Str && crate::html::eq_chars(&ascii_lower_exec(&chars_of(doc.text_of(m).as_str())), "post"),
                None => false,
            };
            let body = match value_get_exec(doc, *root, &chars_of("body")) {
                Some(b) => Some(
                    if doc.kind_of(b) == JsonKind::Str {
                        RequestBody::Text(doc.text_of(b))
                    } else if doc.kind_of(b) == JsonKind::Null {
                        RequestBody::Json("null".to_owned())
                    } else {
                        RequestBody::Json(doc.text_of(b))
                    },
                ),
                None => None,
            };
            (post, body)
        },
        None => (false, None),
    };
    let mut headers: Vec<(String, String)> = Vec::new();
    if let Some((doc, root)) = header {
        proof {
            use_type_invariant(doc);
            doc.lemma_wf(*root as int);
        }
        if doc.kind_of(*root) == JsonKind::Object {
            let items = doc.items_of(*root);
            let n = items.len();
            let mut k: usize = 0;
            assert(crate::book::pairs_view(headers@) =~= Seq::<(Seq<char>, Seq<char>)>::empty());
            while k < n
                invariant
                    *root < doc.size(),
                    doc.kind(*root as int) == JsonKind::Object,
                    doc.keys(*root as int).len() == doc.items(*root as int).len(),
                    items@ == doc.items(*root as int),
                    forall|j: int| 0 <= j < items@.len() ==> #[trigger] items@[j] < *root,
                    n == items@.len(),
                    k <= n,
                    crate::book::pairs_view(headers@) == header_pairs(doc@, *root as int, k as int),
                decreases n - k,
            {
                let item = items[k];
                if doc.kind_of(item) == JsonKind::Str {
                    let ghost before = crate::book::pairs_view(headers@);
                    let name = doc.key_at(*root, k).clone();
                    let value = doc.text_of(item);
                    headers.push((name, value));
                    assert(crate::book::pairs_view(headers@) =~= before.push((doc.keys(*root as int)[k as int], doc.text(item as int))));
                }
                k += 1;
            }
        }
    }
    RequestPlan { post, body, headers }
}

} // verus!
