//! Tables of contents and chapters of a book found through a Legado source:
//! the chapters one TOC page lists, where the TOC starts, the text of a
//! chapter, and the walk over the TOC pages.

use vstd::prelude::*;
use crate::html::{eval_html, select_html, spec_eval_html, spec_select_html};
use crate::json::{
    body_json, eval_json, json_select, opt_json, parse_json, parse_json_opt, spec_eval_json, spec_json_select, JsonDoc,
    JsonTree,
};
use crate::outside::{decode_entities, entities_decoded, html_root, html_root_of, parse_html};
use crate::rules::{apply_replace, spec_apply_replace, ANY_TAG, BREAK_TAGS};
use crate::source::{find_source, source_item, spec_find_source, spec_import_compatible, spec_reason, BookSource};
use crate::text::{
    char_count, chars_of, first_n, lines, lines_exec, push_str, starts_with, starts_with_exec, trim,
    trim_str,
};
use crate::web::{absolute, is_json_body, json_body, render_url, spec_absolute, spec_render_url, text_result_view};

verus! {

/// A chapter listed by a table of contents.
pub struct RemoteChapter {
    pub position: usize,
    pub title: String,
    pub chapter_url: String,
}

impl View for RemoteChapter {
    type V = (usize, Seq<char>, Seq<char>);

    open spec fn view(&self) -> (usize, Seq<char>, Seq<char>) {
        (self.position, self.title@, self.chapter_url@)
    }
}

impl RemoteChapter {
    /// A copy of the chapter.
    pub fn duplicate(&self) -> (r: RemoteChapter)
        ensures
            r@ == self@,
    {
        RemoteChapter { position: self.position, title: self.title.clone(), chapter_url: self.chapter_url.clone() }
    }
}

/// The views of chapters.
pub open spec fn chapter_views(v: Seq<RemoteChapter>) -> Seq<(usize, Seq<char>, Seq<char>)> {
    v.map_values(|c: RemoteChapter| c@)
}

/// The view of an optional text.
pub open spec fn opt_view(o: Option<String>) -> Option<Seq<char>> {
    match o {
        Some(s) => Some(s@),
        None => None,
    }
}

/// The view of a JSON document with its root, when the body parsed.
pub open spec fn json_view(json: Option<(JsonDoc, usize)>) -> Option<(JsonTree, int)> {
    match json {
        Some((doc, root)) => Some((doc@, root as int)),
        None => None,
    }
}

/// The root of a parsed document is one of its values.
pub open spec fn json_ok(json: Option<(JsonDoc, usize)>) -> bool {
    json matches Some((doc, root)) ==> root < doc.size()
}

// ---------------------------------------------------------------------------
// One page of a table of contents
// ---------------------------------------------------------------------------

/// The first line, from `i` on, that is not blank.
pub open spec fn first_nonblank_from(ls: Seq<Seq<char>>, i: int) -> Option<Seq<char>>
    decreases ls.len() - i,
{
    if i < 0 || i >= ls.len() {
        None
    } else if trim(ls[i]).len() > 0 {
        Some(ls[i])
    } else {
        first_nonblank_from(ls, i + 1)
    }
}

/// The next page a rule's value names: its first non-blank line, trimmed and
/// resolved against the current page.
pub open spec fn next_link(value: Seq<char>, page_url: Seq<char>) -> Option<Seq<char>> {
    match first_nonblank_from(lines(value), 0) {
        Some(l) => Some(spec_absolute(page_url, trim(l))),
        None => None,
    }
}

/// The chapters that the JSON entries `list` give, the `k`-th entry at position
/// `start + k`; an entry whose chapter URL renders empty is skipped (its position
/// is not reused).
pub open spec fn toc_json_entries(
    doc: JsonTree,
    list: Seq<usize>,
    s: BookSource,
    page_url: Seq<char>,
    start: int,
) -> Seq<(usize, Seq<char>, Seq<char>)>
    decreases list.len(),
{
    if list.len() == 0 {
        Seq::empty()
    } else {
        let before = toc_json_entries(doc, list.drop_last(), s, page_url, start);
        let ch = list.last() as int;
        let path = spec_render_url(s.toc_chapter_url@, Some((doc, ch)), Seq::empty(), 1);
        if path.len() == 0 {
            before
        } else {
            before.push(
                ((start + list.len() - 1) as usize, spec_eval_json(doc, ch, s.toc_chapter_name@), spec_absolute(page_url, path)),
            )
        }
    }
}

/// The chapters that the HTML elements `list` give, as for JSON entries.
pub open spec fn toc_html_entries(
    page: Seq<char>,
    list: Seq<usize>,
    s: BookSource,
    page_url: Seq<char>,
    start: int,
) -> Seq<(usize, Seq<char>, Seq<char>)>
    decreases list.len(),
{
    if list.len() == 0 {
        Seq::empty()
    } else {
        let before = toc_html_entries(page, list.drop_last(), s, page_url, start);
        let ch = list.last();
        let path = spec_eval_html(page, ch, s.toc_chapter_url@);
        if path.len() == 0 {
            before
        } else {
            before.push(
                ((start + list.len() - 1) as usize, spec_eval_html(page, ch, s.toc_chapter_name@), spec_absolute(page_url, path)),
            )
        }
    }
}

/// A TOC page in JSON: the chapters of the first `limit` entries of the chapter
/// list, and the next page named by the next-page rule, if it has one.
pub open spec fn spec_toc_json(
    doc: JsonTree,
    root: int,
    s: BookSource,
    page_url: Seq<char>,
    start: int,
    limit: int,
) -> (Seq<(usize, Seq<char>, Seq<char>)>, Option<Seq<char>>) {
    let list = first_n(spec_json_select(doc, root, s.toc_chapter_list@), limit);
    let value = if s.toc_next_url@.len() == 0 { Seq::empty() } else { spec_eval_json(doc, root, s.toc_next_url@) };
    (toc_json_entries(doc, list, s, page_url, start), next_link(value, page_url))
}

/// A TOC page in HTML, as for JSON.
pub open spec fn spec_toc_html(
    body: Seq<char>,
    s: BookSource,
    page_url: Seq<char>,
    start: int,
    limit: int,
) -> (Seq<(usize, Seq<char>, Seq<char>)>, Option<Seq<char>>) {
    let root = html_root_of(body);
    let list = first_n(spec_select_html(body, seq![root], s.toc_chapter_list@), limit);
    let value = if s.toc_next_url@.len() == 0 { Seq::empty() } else { spec_eval_html(body, root, s.toc_next_url@) };
    (toc_html_entries(body, list, s, page_url, start), next_link(value, page_url))
}

/// A TOC page fetched from `page_url`: a JSON body is read from the document it
/// parsed into (nothing when it did not parse), another body as HTML.
pub open spec fn spec_toc_page(
    body: Seq<char>,
    json: Option<(JsonTree, int)>,
    s: BookSource,
    page_url: Seq<char>,
    start: int,
    limit: int,
) -> (Seq<(usize, Seq<char>, Seq<char>)>, Option<Seq<char>>) {
    if is_json_body(body) {
        match json {
            Some((doc, root)) => spec_toc_json(doc, root, s, page_url, start, limit),
            None => (Seq::empty(), None),
        }
    } else {
        spec_toc_html(body, s, page_url, start, limit)
    }
}

/// The next page that a rule's value names.
fn next_link_exec(value: &str, page_url: &str) -> (r: Option<String>)
    ensures
        opt_view(r) == next_link(value@, page_url@),
{
    let ls = lines_exec(value);
    let ghost lv = ls.deep_view();
    let mut i: usize = 0;
    while i < ls.len()
        invariant
            lv == ls.deep_view(),
            lv == lines(value@),
            i <= lv.len(),
            first_nonblank_from(lv, 0) == first_nonblank_from(lv, i as int),
        decreases lv.len() - i,
    {
        assert(lv[i as int] == ls@[i as int]@);
        let t = trim_str(ls[i].as_str());
        if !t.as_str().is_empty() {
            return Some(absolute(page_url, t.as_str()));
        }
        i += 1;
    }
    None
}

/// The chapters and next page of a TOC page in JSON.
fn toc_json(
    doc: &JsonDoc,
    root: usize,
    s: &BookSource,
    page_url: &str,
    start: usize,
    limit: usize,
) -> (r: (Vec<RemoteChapter>, Option<String>))
    requires
        doc.wf(),
        root < doc.size(),
        start + limit <= usize::MAX,
    ensures
        (chapter_views(r.0@), opt_view(r.1)) == spec_toc_json(doc@, root as int, *s, page_url@, start as int, limit as int),
        r.0@.len() <= limit,
{
    let list = json_select(doc, root, s.toc_chapter_list.as_str());
    let n = if list.len() <= limit { list.len() } else { limit };
    let ghost chosen = first_n(list@, limit as int);
    assert(chosen =~= list@.subrange(0, n as int));
    let mut out: Vec<RemoteChapter> = Vec::new();
    let mut i: usize = 0;
    proof {
        reveal_strlit("");
    }
    assert(""@ =~= Seq::<char>::empty());
    assert(chosen.subrange(0, 0) =~= Seq::<usize>::empty());
    while i < n
        invariant
            doc.wf(),
            n <= list@.len(),
            n <= limit,
            start + limit <= usize::MAX,
            chosen == list@.subrange(0, n as int),
            forall|k: int| 0 <= k < list@.len() ==> #[trigger] list@[k] < doc.size(),
            i <= n,
            ""@ == Seq::<char>::empty(),
            out@.len() <= i,
            chapter_views(out@) == toc_json_entries(doc@, chosen.subrange(0, i as int), *s, page_url@, start as int),
        decreases n - i,
    {
        let ch = list[i];
        assert(chosen.subrange(0, i + 1).drop_last() =~= chosen.subrange(0, i as int));
        assert(chosen.subrange(0, i + 1).last() == ch);
        let name = eval_json(doc, ch, s.toc_chapter_name.as_str());
        let path = render_url(s.toc_chapter_url.as_str(), doc, Some(ch), "", 1);
        if !path.as_str().is_empty() {
            let c = RemoteChapter { position: start + i, title: name, chapter_url: absolute(page_url, path.as_str()) };
            let ghost before = chapter_views(out@);
            out.push(c);
            assert(chapter_views(out@) =~= before.push(c@));
        }
        i += 1;
    }
    assert(chosen.subrange(0, n as int) =~= chosen);
    let value = if s.toc_next_url.as_str().is_empty() {
        String::new()
    } else {
        eval_json(doc, root, s.toc_next_url.as_str())
    };
    let next = next_link_exec(value.as_str(), page_url);
    (out, next)
}

/// The chapters and next page of a TOC page in HTML.
fn toc_html(body: &str, s: &BookSource, page_url: &str, start: usize, limit: usize) -> (r: (Vec<RemoteChapter>, Option<String>))
    requires
        start + limit <= usize::MAX,
    ensures
        (chapter_views(r.0@), opt_view(r.1)) == spec_toc_html(body@, *s, page_url@, start as int, limit as int),
        r.0@.len() <= limit,
{
    let page = parse_html(body);
    let root = html_root(&page);
    let mut first: Vec<usize> = Vec::new();
    first.push(root);
    assert(first@ =~= seq![root]);
    let list = select_html(&page, first, s.toc_chapter_list.as_str());
    let n = if list.len() <= limit { list.len() } else { limit };
    let ghost chosen = first_n(list@, limit as int);
    assert(chosen =~= list@.subrange(0, n as int));
    let mut out: Vec<RemoteChapter> = Vec::new();
    let mut i: usize = 0;
    assert(chosen.subrange(0, 0) =~= Seq::<usize>::empty());
    while i < n
        invariant
            page@ == body@,
            n <= list@.len(),
            n <= limit,
            start + limit <= usize::MAX,
            chosen == list@.subrange(0, n as int),
            i <= n,
            out@.len() <= i,
            chapter_views(out@) == toc_html_entries(body@, chosen.subrange(0, i as int), *s, page_url@, start as int),
        decreases n - i,
    {
        let ch = list[i];
        assert(chosen.subrange(0, i + 1).drop_last() =~= chosen.subrange(0, i as int));
        assert(chosen.subrange(0, i + 1).last() == ch);
        let name = eval_html(&page, ch, s.toc_chapter_name.as_str());
        let path = eval_html(&page, ch, s.toc_chapter_url.as_str());
        if !path.as_str().is_empty() {
            let c = RemoteChapter { position: start + i, title: name, chapter_url: absolute(page_url, path.as_str()) };
            let ghost before = chapter_views(out@);
            out.push(c);
            assert(chapter_views(out@) =~= before.push(c@));
        }
        i += 1;
    }
    assert(chosen.subrange(0, n as int) =~= chosen);
    let value = if s.toc_next_url.as_str().is_empty() {
        String::new()
    } else {
        eval_html(&page, root, s.toc_next_url.as_str())
    };
    let next = next_link_exec(value.as_str(), page_url);
    (out, next)
}

/// The chapters a TOC page fetched from `page_url` lists, numbered from `start`,
/// at most `limit` of them, and the next TOC page; `json` is the body parsed as
/// JSON, when it parsed. Positions must fit in `usize`: `start + limit` does.
pub fn toc_page(
    body: &str,
    json: &Option<(JsonDoc, usize)>,
    s: &BookSource,
    page_url: &str,
    start: usize,
    limit: usize,
) -> (r: (Vec<RemoteChapter>, Option<String>))
    requires
        json_ok(*json),
        start + limit <= usize::MAX,
    ensures
        (chapter_views(r.0@), opt_view(r.1)) == spec_toc_page(body@, json_view(*json), *s, page_url@, start as int, limit as int),
        r.0@.len() <= limit,
{
    if json_body(body) {
        match json {
            Some((doc, root)) => {
                proof {
                    use_type_invariant(doc);
                }
                toc_json(doc, *root, s, page_url, start, limit)
            },
            None => (Vec::new(), None),
        }
    } else {
        toc_html(body, s, page_url, start, limit)
    }
}

// ---------------------------------------------------------------------------
// Where the table of contents starts
// ---------------------------------------------------------------------------

/// The value of a book page that the TOC rule reads: the first value that an
/// `init` rule starting with `$` selects, else the root.
pub open spec fn toc_context(doc: JsonTree, root: int, init: Seq<char>) -> int {
    if starts_with(init, "$"@) {
        let found = spec_json_select(doc, root, init);
        if found.len() > 0 {
            found[0] as int
        } else {
            root
        }
    } else {
        root
    }
}

/// The first TOC page of a book, from the answer to a request of its page
/// `book_url` (`json` is that answer parsed as JSON): the book page itself when the
/// source has no TOC rule, else the link that rule gives on the book page.
pub open spec fn spec_toc_start(
    info: Result<Seq<char>, Seq<char>>,
    json: Result<(JsonTree, int), Seq<char>>,
    s: BookSource,
    book_url: Seq<char>,
) -> Result<Seq<char>, Seq<char>> {
    match info {
        Err(e) => Err("书籍详情读取失败: "@ + e),
        Ok(body) => if s.info_toc_url@.len() == 0 {
            Ok(book_url)
        } else if is_json_body(body) {
            match json {
                Err(e) => Err(e),
                Ok((doc, root)) => {
                    let ctx = toc_context(doc, root, s.info_init@);
                    Ok(spec_absolute(book_url, spec_render_url(s.info_toc_url@, Some((doc, ctx)), Seq::empty(), 1)))
                },
            }
        } else {
            Ok(spec_absolute(book_url, spec_eval_html(body, html_root_of(body), s.info_toc_url@)))
        },
    }
}

/// The view of a JSON parse of a body: the document and its root, or the message.
pub open spec fn parse_view(json: Result<(JsonDoc, usize), String>) -> Result<(JsonTree, int), Seq<char>> {
    match json {
        Ok((doc, root)) => Ok((doc@, root as int)),
        Err(e) => Err(e@),
    }
}

/// The first TOC page of a book whose page `book_url` answered `info`.
pub fn toc_start(
    info: &Result<String, String>,
    json: &Result<(JsonDoc, usize), String>,
    s: &BookSource,
    book_url: &str,
) -> (r: Result<String, String>)
    requires
        json matches Ok((doc, root)) ==> root < doc.size(),
    ensures
        text_result_view(r) == spec_toc_start(text_result_view(*info), parse_view(*json), *s, book_url@),
{
    match info {
        Err(e) => {
            let mut m = "书籍详情读取失败: ".to_owned();
            push_str(&mut m, e.as_str());
            Err(m)
        },
        Ok(body) => {
            if s.info_toc_url.as_str().is_empty() {
                return Ok(book_url.to_owned());
            }
            if json_body(body.as_str()) {
                match json {
                    Err(e) => Err(e.clone()),
                    Ok((doc, root)) => {
                        let iv = chars_of(s.info_init.as_str());
                        let dollar = chars_of("$");
                        let ctx = if starts_with_exec(&iv, &dollar) {
                            let found = json_select(doc, *root, s.info_init.as_str());
                            if found.len() > 0 {
                                found[0]
                            } else {
                                *root
                            }
                        } else {
                            *root
                        };
                        proof {
                            reveal_strlit("");
                        }
                        assert(""@ =~= Seq::<char>::empty());
                        let rendered = render_url(s.info_toc_url.as_str(), doc, Some(ctx), "", 1);
                        Ok(absolute(book_url, rendered.as_str()))
                    },
                }
            } else {
                let page = parse_html(body.as_str());
                let root = html_root(&page);
                let link = eval_html(&page, root, s.info_toc_url.as_str());
                Ok(absolute(book_url, link.as_str()))
            }
        },
    }
}

// ---------------------------------------------------------------------------
// Chapter text
// ---------------------------------------------------------------------------

/// The text the content rule reads from a chapter page: from the JSON document a
/// JSON body parsed into (empty when it did not parse), else from the HTML page.
pub open spec fn spec_page_content(body: Seq<char>, json: Option<(JsonTree, int)>, s: BookSource) -> Seq<char> {
    if is_json_body(body) {
        match json {
            Some((doc, root)) => spec_eval_json(doc, root, s.content_rule@),
            None => Seq::empty(),
        }
    } else {
        spec_eval_html(body, html_root_of(body), s.content_rule@)
    }
}

/// The text the content rule reads from a chapter page.
pub fn page_content(body: &str, json: &Option<(JsonDoc, usize)>, s: &BookSource) -> (r: String)
    requires
        json_ok(*json),
    ensures
        r@ == spec_page_content(body@, json_view(*json), *s),
{
    if json_body(body) {
        match json {
            Some((doc, root)) => eval_json(doc, *root, s.content_rule.as_str()),
            None => String::new(),
        }
    } else {
        let page = parse_html(body);
        let root = html_root(&page);
        eval_html(&page, root, s.content_rule.as_str())
    }
}

/// The text of a chapter for a book: the content read from its page, kept only
/// when the page was fetched and the text has more than 20 characters.
pub open spec fn spec_chapter_text(
    body: Result<Seq<char>, Seq<char>>,
    json: Option<(JsonTree, int)>,
    s: BookSource,
) -> Option<Seq<char>> {
    match body {
        Ok(b) => {
            let c = spec_page_content(b, json, s);
            if c.len() > 20 {
                Some(c)
            } else {
                None
            }
        },
        Err(_) => None,
    }
}

/// The text of a chapter for a book, when there is one.
pub fn chapter_text(body: &Result<String, String>, json: &Option<(JsonDoc, usize)>, s: &BookSource) -> (r: Option<String>)
    requires
        json_ok(*json),
    ensures
        opt_view(r) == spec_chapter_text(text_result_view(*body), json_view(*json), *s),
{
    match body {
        Ok(b) => {
            let c = page_content(b.as_str(), json, s);
            if char_count(c.as_str()) > 20 {
                Some(c)
            } else {
                None
            }
        },
        Err(_) => None,
    }
}

/// A chapter's text for reading: line-breaking tags become line breaks, other tags
/// are dropped, and after trimming, HTML entities are decoded.
pub open spec fn spec_clean_preview(raw: Seq<char>) -> Seq<char> {
    let breaks = spec_apply_replace(raw, Some((BREAK_TAGS@, "\n"@)));
    let tags = spec_apply_replace(breaks, Some((ANY_TAG@, ""@)));
    entities_decoded(trim(tags))
}

/// A chapter's text for reading.
pub fn clean_preview_text(raw: &str) -> (r: String)
    ensures
        r@ == spec_clean_preview(raw@),
{
    let breaks = apply_replace(raw.to_owned(), &Some((BREAK_TAGS.to_owned(), "\n".to_owned())));
    let tags = apply_replace(breaks, &Some((ANY_TAG.to_owned(), "".to_owned())));
    let t = trim_str(tags.as_str());
    decode_entities(t.as_str())
}

/// A chapter read for preview.
pub struct RemoteChapterDetail {
    pub title: String,
    pub content: String,
    pub character_count: usize,
}

/// A chapter read for preview: the failure to fetch it, or its cleaned text when
/// the content rule read at least 20 characters.
pub open spec fn spec_chapter_detail(
    title: Seq<char>,
    body: Result<Seq<char>, Seq<char>>,
    json: Option<(JsonTree, int)>,
    s: BookSource,
) -> Result<(Seq<char>, Seq<char>, nat), Seq<char>> {
    match body {
        Err(e) => Err("章节读取失败: "@ + e),
        Ok(b) => {
            let c = spec_page_content(b, json, s);
            if c.len() < 20 {
                Err("章节正文为空，书源规则可能失效"@)
            } else {
                let clean = spec_clean_preview(c);
                Ok((title, clean, clean.len()))
            }
        },
    }
}

/// The view of a chapter preview.
pub open spec fn detail_view(r: Result<RemoteChapterDetail, String>) -> Result<(Seq<char>, Seq<char>, nat), Seq<char>> {
    match r {
        Ok(d) => Ok((d.title@, d.content@, d.character_count as nat)),
        Err(e) => Err(e@),
    }
}

/// A chapter titled `title` read for preview from the answer to its request.
pub fn chapter_detail(
    title: String,
    body: &Result<String, String>,
    json: &Option<(JsonDoc, usize)>,
    s: &BookSource,
) -> (r: Result<RemoteChapterDetail, String>)
    requires
        json_ok(*json),
    ensures
        detail_view(r) == spec_chapter_detail(title@, text_result_view(*body), json_view(*json), *s),
{
    match body {
        Err(e) => {
            let mut m = "章节读取失败: ".to_owned();
            push_str(&mut m, e.as_str());
            Err(m)
        },
        Ok(b) => {
            let c = page_content(b.as_str(), json, s);
            if char_count(c.as_str()) < 20 {
                return Err("章节正文为空，书源规则可能失效".to_owned());
            }
            let content = clean_preview_text(c.as_str());
            let character_count = char_count(content.as_str());
            Ok(RemoteChapterDetail { title, content, character_count })
        },
    }
}

// ---------------------------------------------------------------------------
// From the text of an answer
// ---------------------------------------------------------------------------

/// The document an answer's text parses to, or the failure to fetch it, or the
/// parser's message.
pub open spec fn info_json(info: Result<Seq<char>, Seq<char>>) -> Result<(JsonTree, int), Seq<char>> {
    match info {
        Ok(b) => body_json(b),
        Err(e) => Err(e),
    }
}

/// The document a fetched page parses to, when it was fetched and parses.
pub open spec fn page_json(body: Result<Seq<char>, Seq<char>>) -> Option<(JsonTree, int)> {
    match body {
        Ok(b) => opt_json(b),
        Err(_) => None,
    }
}

fn page_doc(body: &Result<String, String>) -> (r: Option<(JsonDoc, usize)>)
    ensures
        json_ok(r),
        json_view(r) == page_json(text_result_view(*body)),
{
    match body {
        Ok(b) => parse_json_opt(b.as_str()),
        Err(_) => None,
    }
}

/// The chapters a TOC page fetched from `page_url` lists, numbered from `start`,
/// at most `limit` of them, and the next TOC page; the body is parsed as JSON here.
pub fn toc_page_of(body: &str, s: &BookSource, page_url: &str, start: usize, limit: usize) -> (r: (
    Vec<RemoteChapter>,
    Option<String>,
))
    requires
        start + limit <= usize::MAX,
    ensures
        (chapter_views(r.0@), opt_view(r.1)) == spec_toc_page(body@, opt_json(body@), *s, page_url@, start as int, limit as int),
        r.0@.len() <= limit,
{
    let json = parse_json_opt(body);
    toc_page(body, &json, s, page_url, start, limit)
}

/// The first TOC page of a book whose page `book_url` answered `info`; the answer
/// is parsed as JSON here.
pub fn toc_start_of(info: &Result<String, String>, s: &BookSource, book_url: &str) -> (r: Result<String, String>)
    ensures
        text_result_view(r) == spec_toc_start(text_result_view(*info), info_json(text_result_view(*info)), *s, book_url@),
{
    let json = match info {
        Ok(b) => parse_json(b.as_str()),
        Err(e) => Err(e.clone()),
    };
    toc_start(info, &json, s, book_url)
}

/// The text of a chapter for a book, from the answer to its request.
pub fn chapter_text_of(body: &Result<String, String>, s: &BookSource) -> (r: Option<String>)
    ensures
        opt_view(r) == spec_chapter_text(text_result_view(*body), page_json(text_result_view(*body)), *s),
{
    let json = page_doc(body);
    chapter_text(body, &json, s)
}

/// A chapter titled `title` read for preview from the answer to its request.
pub fn chapter_detail_of(title: String, body: &Result<String, String>, s: &BookSource) -> (r: Result<
    RemoteChapterDetail,
    String,
>)
    ensures
        detail_view(r) == spec_chapter_detail(title@, text_result_view(*body), page_json(text_result_view(*body)), *s),
{
    let json = page_doc(body);
    chapter_detail(title, body, &json, s)
}

// ---------------------------------------------------------------------------
// The walk over the TOC pages
// ---------------------------------------------------------------------------

/// What the walk over the TOC pages asks for next.
pub enum TocAction {
    /// Fetch this TOC page and hand its answer to `page_fetched`.
    Fetch(String),
    /// The table of contents is complete: the chapters are in `into_chapters`.
    Done,
    /// The walk failed with this message.
    Fail(String),
}

/// The mathematical value of a `TocAction`.
pub enum TocStep {
    Fetch(Seq<char>),
    Done,
    Fail(Seq<char>),
}

impl View for TocAction {
    type V = TocStep;

    open spec fn view(&self) -> TocStep {
        match self {
            TocAction::Fetch(u) => TocStep::Fetch(u@),
            TocAction::Done => TocStep::Done,
            TocAction::Fail(e) => TocStep::Fail(e@),
        }
    }
}

/// The state of a walk over the TOC pages of a book.
pub struct TocWalk {
    chapters: Vec<RemoteChapter>,
    visited: Vec<String>,
    next_url: Option<String>,
    limit: usize,
    extract: bool,
}

/// The mathematical value of a walk: the chapters found so far, the pages
/// requested so far in order, the page to request next, the most chapters to
/// collect, and whether the walk is for an import (which stops at the limit).
pub struct TocWalkView {
    pub chapters: Seq<(usize, Seq<char>, Seq<char>)>,
    pub visited: Seq<Seq<char>>,
    pub next_url: Option<Seq<char>>,
    pub limit: nat,
    pub extract: bool,
}

impl View for TocWalk {
    type V = TocWalkView;

    closed spec fn view(&self) -> TocWalkView {
        TocWalkView {
            chapters: chapter_views(self.chapters@),
            visited: self.visited.deep_view(),
            next_url: opt_view(self.next_url),
            limit: self.limit as nat,
            extract: self.extract,
        }
    }
}

/// No page is requested twice.
pub open spec fn no_repeats(v: Seq<Seq<char>>) -> bool {
    forall|i: int, j: int| 0 <= i < j < v.len() ==> v[i] != v[j]
}

/// The most TOC pages a walk requests.
pub open spec fn max_toc_pages() -> nat {
    10_000
}

/// The message when a table of contents has more pages than allowed.
pub open spec fn too_many_pages(extract: bool) -> Seq<char> {
    if extract {
        "目录分页超过 10000 页，已停止异常书源规则"@
    } else {
        "目录分页超过安全范围"@
    }
}

/// The walk requests no further page: there is none, an import has all the
/// chapters it asked for, or the next page was already requested.
pub open spec fn walk_over(w: TocWalkView) -> bool {
    match w.next_url {
        None => true,
        Some(u) => (w.extract && w.chapters.len() >= w.limit) || w.visited.contains(u),
    }
}

/// How a finished walk ends: an empty table of contents is a failure.
pub open spec fn finish_step(w: TocWalkView) -> TocStep {
    if w.chapters.len() == 0 {
        TocStep::Fail("书源返回了空目录，规则可能已经失效"@)
    } else {
        TocStep::Done
    }
}

/// The message when TOC page number `page` could not be fetched.
pub open spec fn page_failure(page: nat, e: Seq<char>) -> Seq<char> {
    "目录第 "@ + crate::text::dec(page) + " 页读取失败: "@ + e
}

/// The view of the outcome of handing in a TOC page.
pub open spec fn unit_view(r: Result<(), String>) -> Result<(), Seq<char>> {
    match r {
        Ok(()) => Ok(()),
        Err(e) => Err(e@),
    }
}

/// The message when TOC page number `page` could not be fetched.
fn page_failure_message(page: usize, e: &str) -> (m: String)
    ensures
        m@ == page_failure(page as nat, e@),
{
    let mut m = "目录第 ".to_owned();
    let num = crate::text::usize_to_string(page);
    push_str(&mut m, num.as_str());
    push_str(&mut m, " 页读取失败: ");
    push_str(&mut m, e);
    m
}

impl TocWalk {
    /// The walk's invariant: at most `limit` chapters, and no page requested twice.
    /// Every walk keeps it.
    #[verifier::type_invariant]
    pub open spec fn wf(&self) -> bool {
        &&& self@.chapters.len() <= self@.limit
        &&& no_repeats(self@.visited)
    }

    /// A walk that starts at the TOC page `toc_url`, collects at most `limit`
    /// chapters, and, when `extract` is set, stops requesting pages at that limit.
    pub fn new(toc_url: String, limit: usize, extract: bool) -> (w: TocWalk)
        ensures
            w.wf(),
            w@ == (TocWalkView {
                chapters: Seq::empty(),
                visited: Seq::empty(),
                next_url: Some(toc_url@),
                limit: limit as nat,
                extract,
            }),
    {
        let w = TocWalk { chapters: Vec::new(), visited: Vec::new(), next_url: Some(toc_url), limit, extract };
        assert(w@.chapters =~= Seq::empty());
        assert(w@.visited =~= Seq::empty());
        w
    }

    /// A walk to preview the table of contents: every chapter of every page.
    pub fn for_preview(toc_url: String) -> (w: TocWalk)
        ensures
            w.wf(),
            w@ == (TocWalkView {
                chapters: Seq::empty(),
                visited: Seq::empty(),
                next_url: Some(toc_url@),
                limit: usize::MAX as nat,
                extract: false,
            }),
    {
        TocWalk::new(toc_url, usize::MAX, false)
    }

    /// A walk to import a book: at most `max_chapters` chapters, all of them for `0`.
    pub fn for_extract(toc_url: String, max_chapters: usize) -> (w: TocWalk)
        ensures
            w.wf(),
            w@ == (TocWalkView {
                chapters: Seq::empty(),
                visited: Seq::empty(),
                next_url: Some(toc_url@),
                limit: if max_chapters == 0 { usize::MAX as nat } else { max_chapters as nat },
                extract: true,
            }),
    {
        let limit = if max_chapters == 0 { usize::MAX } else { max_chapters };
        TocWalk::new(toc_url, limit, true)
    }

    /// The number of pages requested so far.
    /// Hands in the answer to the last requested page, as fetched: its body is
    /// parsed as JSON here, and it is taken as `page_fetched` takes it.
    pub fn page_answered(&mut self, body: &Result<String, String>, s: &BookSource) -> (r: Result<(), String>)
        requires
            old(self)@.visited.len() > 0,
        ensures
            final(self).wf(),
            match text_result_view(*body) {
                Err(e) => {
                    &&& unit_view(r) == Err::<(), Seq<char>>(page_failure(old(self)@.visited.len(), e))
                    &&& final(self)@ == old(self)@
                },
                Ok(b) => {
                    let page = spec_toc_page(
                        b,
                        opt_json(b),
                        *s,
                        old(self)@.visited.last(),
                        old(self)@.chapters.len() as int,
                        old(self)@.limit - old(self)@.chapters.len(),
                    );
                    &&& r is Ok
                    &&& final(self)@ == (TocWalkView {
                        chapters: old(self)@.chapters + page.0,
                        next_url: page.1,
                        ..old(self)@
                    })
                },
            },
    {
        let json = page_doc(body);
        self.page_fetched(body, &json, s)
    }

    pub fn requested_pages(&self) -> (n: usize)
        ensures
            n == self@.visited.len(),
    {
        self.visited.len()
    }

    /// The chapters the walk found.
    pub fn into_chapters(self) -> (r: Vec<RemoteChapter>)
        ensures
            chapter_views(r@) == self@.chapters,
    {
        self.chapters
    }

    /// What to do next: request the next TOC page, unless the walk is over (then
    /// it is done, or failed when it found no chapter); a page is requested at most
    /// once, and a table of contents of more than 10000 pages fails.
    pub fn next_action(&mut self) -> (r: TocAction)
        ensures
            final(self).wf(),
            walk_over(old(self)@) ==> final(self)@ == old(self)@ && r@ == finish_step(old(self)@),
            !walk_over(old(self)@) ==> {
                let u = old(self)@.next_url->Some_0;
                &&& final(self)@ == (TocWalkView { visited: old(self)@.visited.push(u), ..old(self)@ })
                &&& r@ == if final(self)@.visited.len() > max_toc_pages() {
                    TocStep::Fail(too_many_pages(old(self)@.extract))
                } else {
                    TocStep::Fetch(u)
                }
            },
            r matches TocAction::Fetch(u) ==> {
                &&& !old(self)@.visited.contains(u@)
                &&& final(self)@.visited.len() <= max_toc_pages()
            },
    {
        proof {
            use_type_invariant(&*self);
        }
        let url = match &self.next_url {
            None => {
                return self.finish();
            },
            Some(u) => u.clone(),
        };
        if self.extract && self.chapters.len() >= self.limit {
            return self.finish();
        }
        if self.was_visited(&url) {
            return self.finish();
        }
        let ghost before = self.visited.deep_view();
        let mut visited: Vec<String> = Vec::new();
        std::mem::swap(&mut visited, &mut self.visited);
        visited.push(url.clone());
        assert(visited.deep_view() =~= before.push(url@));
        self.visited = visited;
        if self.visited.len() > 10_000 {
            if self.extract {
                TocAction::Fail("目录分页超过 10000 页，已停止异常书源规则".to_owned())
            } else {
                TocAction::Fail("目录分页超过安全范围".to_owned())
            }
        } else {
            TocAction::Fetch(url)
        }
    }

    /// Whether the page was requested already.
    fn was_visited(&self, url: &String) -> (b: bool)
        ensures
            b == self@.visited.contains(url@),
    {
        let mut i: usize = 0;
        while i < self.visited.len()
            invariant
                i <= self.visited@.len(),
                forall|k: int| 0 <= k < i ==> self.visited.deep_view()[k] != url@,
            decreases self.visited@.len() - i,
        {
            assert(self.visited.deep_view()[i as int] == self.visited@[i as int]@);
            if self.visited[i] == *url {
                assert(self.visited.deep_view().contains(url@));
                return true;
            }
            i += 1;
        }
        false
    }

    /// How the walk ends.
    fn finish(&self) -> (r: TocAction)
        ensures
            r@ == finish_step(self@),
    {
        if self.chapters.len() == 0 {
            TocAction::Fail("书源返回了空目录，规则可能已经失效".to_owned())
        } else {
            TocAction::Done
        }
    }

    /// Hands in the answer to the last requested page (`json` is its body parsed as
    /// JSON, when it parsed): a failure ends the walk with a message naming the page;
    /// otherwise the page's chapters, numbered on from those found so far and no more
    /// than the limit allows, are added, and its next page becomes the next request.
    pub fn page_fetched(
        &mut self,
        body: &Result<String, String>,
        json: &Option<(JsonDoc, usize)>,
        s: &BookSource,
    ) -> (r: Result<(), String>)
        requires
            old(self)@.visited.len() > 0,
            json_ok(*json),
        ensures
            final(self).wf(),
            match text_result_view(*body) {
                Err(e) => {
                    &&& unit_view(r) == Err::<(), Seq<char>>(page_failure(old(self)@.visited.len(), e))
                    &&& final(self)@ == old(self)@
                },
                Ok(b) => {
                    let page = spec_toc_page(
                        b,
                        json_view(*json),
                        *s,
                        old(self)@.visited.last(),
                        old(self)@.chapters.len() as int,
                        old(self)@.limit - old(self)@.chapters.len(),
                    );
                    &&& r is Ok
                    &&& final(self)@ == (TocWalkView {
                        chapters: old(self)@.chapters + page.0,
                        next_url: page.1,
                        ..old(self)@
                    })
                },
            },
    {
        proof {
            use_type_invariant(&*self);
        }
        let b = match body {
            Err(e) => {
                return Err(page_failure_message(self.visited.len(), e.as_str()));
            },
            Ok(b) => b,
        };
        let n = self.visited.len();
        let start = self.chapters.len();
        let remaining = self.limit - start;
        let page_url = self.visited[n - 1].clone();
        assert(self.visited.deep_view().last() == page_url@);
        let (found, next) = toc_page(b.as_str(), json, s, page_url.as_str(), start, remaining);
        let mut chapters: Vec<RemoteChapter> = Vec::new();
        std::mem::swap(&mut chapters, &mut self.chapters);
        let ghost before = chapter_views(chapters@);
        let mut k: usize = 0;
        while k < found.len()
            invariant
                k <= found@.len(),
                found@.len() <= remaining,
                start + remaining <= usize::MAX,
                chapters@.len() == start + k,
                chapter_views(chapters@) == before + chapter_views(found@).subrange(0, k as int),
            decreases found@.len() - k,
        {
            let ghost prev = chapter_views(chapters@);
            chapters.push(found[k].duplicate());
            assert(chapter_views(chapters@) =~= prev.push(found@[k as int]@));
            assert(chapter_views(found@).subrange(0, k + 1) =~= chapter_views(found@).subrange(0, k as int).push(found@[k as int]@));
            k += 1;
        }
        assert(chapter_views(found@).subrange(0, found@.len() as int) =~= chapter_views(found@));
        self.chapters = chapters;
        self.next_url = next;
        Ok(())
    }
}

// ---------------------------------------------------------------------------
// Requests
// ---------------------------------------------------------------------------

/// A request to preview the table of contents of a book.
pub struct PreviewRequest {
    pub source_key: String,
    pub book_url: String,
}

/// A request to import a book; `max_chapters` of `0` asks for every chapter.
pub struct ExtractRequest {
    pub source_key: String,
    pub book_url: String,
    pub title: String,
    pub max_chapters: usize,
}

/// The view of a lookup of a source.
pub open spec fn lookup_view(r: Result<usize, String>) -> Result<usize, Seq<char>> {
    match r {
        Ok(i) => Ok(i),
        Err(e) => Err(e@),
    }
}

/// The source whose books are imported: the first with the key, which must be
/// able to import, else a message with its name and the reason.
pub open spec fn spec_source_for_import(sources: Seq<BookSource>, key: Seq<char>) -> Result<usize, Seq<char>> {
    match spec_find_source(sources, key, 0) {
        None => Err("书源已不存在，请重新同步"@),
        Some(i) => if spec_import_compatible(sources[i as int]) {
            Ok(i)
        } else {
            Err(sources[i as int].name@ + "："@ + spec_reason(sources[i as int]))
        },
    }
}

/// The source whose book is imported.
pub fn source_for_import(sources: &Vec<BookSource>, key: &str) -> (r: Result<usize, String>)
    ensures
        lookup_view(r) == spec_source_for_import(sources@, key@),
        r matches Ok(i) ==> i < sources@.len(),
{
    match find_source(sources, key) {
        None => Err("书源已不存在，请重新同步".to_owned()),
        Some(i) => {
            let item = source_item(&sources[i]);
            if item.import_compatible {
                Ok(i)
            } else {
                let mut m = item.name;
                push_str(&mut m, "：");
                push_str(&mut m, item.reason.as_str());
                Err(m)
            }
        },
    }
}

/// The source whose table of contents is previewed: the first with the key, which
/// must be able to import.
pub open spec fn spec_source_for_preview(sources: Seq<BookSource>, key: Seq<char>) -> Result<usize, Seq<char>> {
    match spec_find_source(sources, key, 0) {
        None => Err("书源已不存在，请重新同步"@),
        Some(i) => if spec_import_compatible(sources[i as int]) {
            Ok(i)
        } else {
            Err("该书源的目录或正文规则当前不兼容"@)
        },
    }
}

/// The source whose table of contents is previewed.
pub fn source_for_preview(sources: &Vec<BookSource>, key: &str) -> (r: Result<usize, String>)
    ensures
        lookup_view(r) == spec_source_for_preview(sources@, key@),
        r matches Ok(i) ==> i < sources@.len(),
{
    match find_source(sources, key) {
        None => Err("书源已不存在，请重新同步".to_owned()),
        Some(i) => {
            if source_item(&sources[i]).import_compatible {
                Ok(i)
            } else {
                Err("该书源的目录或正文规则当前不兼容".to_owned())
            }
        },
    }
}

/// The source of a chapter read for preview: the first with the key.
pub open spec fn spec_source_for_chapter(sources: Seq<BookSource>, key: Seq<char>) -> Result<usize, Seq<char>> {
    match spec_find_source(sources, key, 0) {
        None => Err("书源已不存在"@),
        Some(i) => Ok(i),
    }
}

/// The source of a chapter read for preview.
pub fn source_for_chapter(sources: &Vec<BookSource>, key: &str) -> (r: Result<usize, String>)
    ensures
        lookup_view(r) == spec_source_for_chapter(sources@, key@),
        r matches Ok(i) ==> i < sources@.len(),
{
    match find_source(sources, key) {
        None => Err("书源已不存在".to_owned()),
        Some(i) => Ok(i),
    }
}

// ---------------------------------------------------------------------------
// The imported book
// ---------------------------------------------------------------------------

/// A chapter of a book being imported: its position in the table of contents, its
/// title, and its text when it could be read.
pub struct FetchedChapter {
    pub position: usize,
    pub title: String,
    pub text: Option<String>,
}

impl View for FetchedChapter {
    type V = (usize, Seq<char>, Option<Seq<char>>);

    open spec fn view(&self) -> (usize, Seq<char>, Option<Seq<char>>) {
        (self.position, self.title@, opt_view(self.text))
    }
}

impl FetchedChapter {
    /// A copy of the chapter.
    pub fn duplicate(&self) -> (r: FetchedChapter)
        ensures
            r@ == self@,
    {
        FetchedChapter { position: self.position, title: self.title.clone(), text: self.text.clone() }
    }
}

/// The views of fetched chapters.
pub open spec fn fetched_views(v: Seq<FetchedChapter>) -> Seq<(usize, Seq<char>, Option<Seq<char>>)> {
    v.map_values(|c: FetchedChapter| c@)
}

/// Where a chapter goes among chapters sorted by position: after every chapter
/// whose position is not greater.
pub open spec fn position_slot(sorted: Seq<(usize, Seq<char>, Option<Seq<char>>)>, x: (usize, Seq<char>, Option<Seq<char>>), i: int) -> int
    decreases sorted.len() - i,
{
    if i < 0 || i >= sorted.len() {
        sorted.len() as int
    } else if x.0 < sorted[i].0 {
        i
    } else {
        position_slot(sorted, x, i + 1)
    }
}

/// The chapters in the order of their positions, chapters of equal position in
/// the order they came.
pub open spec fn by_position(s: Seq<(usize, Seq<char>, Option<Seq<char>>)>) -> Seq<(usize, Seq<char>, Option<Seq<char>>)>
    decreases s.len(),
{
    if s.len() == 0 {
        Seq::empty()
    } else {
        let sorted = by_position(s.drop_last());
        sorted.insert(position_slot(sorted, s.last(), 0), s.last())
    }
}

/// The text of a book: each chapter that was read, as a heading `# title` and its
/// text, each preceded by a blank line.
pub open spec fn book_text(s: Seq<(usize, Seq<char>, Option<Seq<char>>)>) -> Seq<char>
    decreases s.len(),
{
    if s.len() == 0 {
        Seq::empty()
    } else {
        book_text(s.drop_last()) + match s.last().2 {
            Some(t) => "\n\n# "@ + s.last().1 + "\n\n"@ + t,
            None => Seq::empty(),
        }
    }
}

/// The number of chapters that could not be read.
pub open spec fn missing(s: Seq<(usize, Seq<char>, Option<Seq<char>>)>) -> nat
    decreases s.len(),
{
    if s.len() == 0 {
        0
    } else {
        missing(s.drop_last()) + if s.last().2 is None { 1nat } else { 0nat }
    }
}

/// An imported book.
pub struct ExtractedBook {
    pub title: String,
    pub content: String,
    pub source_uri: String,
    pub source_name: String,
    pub chapter_count: usize,
    pub failed_chapters: usize,
}

/// The mathematical value of an imported book.
pub struct BookView {
    pub title: Seq<char>,
    pub content: Seq<char>,
    pub source_uri: Seq<char>,
    pub source_name: Seq<char>,
    pub chapter_count: nat,
    pub failed_chapters: nat,
}

/// The view of an import.
pub open spec fn book_view(r: Result<ExtractedBook, String>) -> Result<BookView, Seq<char>> {
    match r {
        Ok(b) => Ok(BookView {
            title: b.title@,
            content: b.content@,
            source_uri: b.source_uri@,
            source_name: b.source_name@,
            chapter_count: b.chapter_count as nat,
            failed_chapters: b.failed_chapters as nat,
        }),
        Err(e) => Err(e@),
    }
}

/// The book imported from its chapters: their texts in the order of their
/// positions, the number read and the number missing; fewer than 80 characters in
/// all is a failure.
pub open spec fn spec_assemble_book(
    title: Seq<char>,
    book_url: Seq<char>,
    source_name: Seq<char>,
    fetched: Seq<(usize, Seq<char>, Option<Seq<char>>)>,
) -> Result<BookView, Seq<char>> {
    let sorted = by_position(fetched);
    let content = book_text(sorted);
    if content.len() < 80 {
        Err("章节正文均未能读取，书源规则可能失效或需要登录/JavaScript"@)
    } else {
        Ok(BookView {
            title,
            content,
            source_uri: book_url,
            source_name,
            chapter_count: (fetched.len() - missing(sorted)) as nat,
            failed_chapters: missing(sorted),
        })
    }
}

proof fn lemma_position_slot(sorted: Seq<(usize, Seq<char>, Option<Seq<char>>)>, x: (usize, Seq<char>, Option<Seq<char>>), i: int)
    requires
        0 <= i <= sorted.len(),
    ensures
        i <= position_slot(sorted, x, i) <= sorted.len(),
        forall|k: int| i <= k < position_slot(sorted, x, i) ==> #[trigger] sorted[k].0 <= x.0,
        position_slot(sorted, x, i) < sorted.len() ==> x.0 < sorted[position_slot(sorted, x, i)].0,
    decreases sorted.len() - i,
{
    if i < sorted.len() && !(x.0 < sorted[i].0) {
        lemma_position_slot(sorted, x, i + 1);
    }
}

/// Sorting by position keeps every chapter and orders them by position.
pub proof fn lemma_by_position(s: Seq<(usize, Seq<char>, Option<Seq<char>>)>)
    ensures
        by_position(s).len() == s.len(),
        by_position(s).to_multiset() == s.to_multiset(),
        forall|i: int, j: int| 0 <= i < j < s.len() ==> #[trigger] by_position(s)[i].0 <= #[trigger] by_position(s)[j].0,
    decreases s.len(),
{
    broadcast use vstd::seq_lib::to_multiset_insert;
    if s.len() == 0 {
        assert(s =~= Seq::<(usize, Seq<char>, Option<Seq<char>>)>::empty());
    } else {
        let init = s.drop_last();
        let x = s.last();
        lemma_by_position(init);
        let sorted = by_position(init);
        lemma_position_slot(sorted, x, 0);
        let p = position_slot(sorted, x, 0);
        let r = sorted.insert(p, x);
        assert(r == by_position(s));
        assert forall|i: int, j: int| 0 <= i < j < r.len() implies r[i].0 <= r[j].0 by {
            if j < p {
                assert(r[i] == sorted[i] && r[j] == sorted[j]);
            } else if j == p {
                assert(r[i] == sorted[i]);
            } else if i < p {
                assert(r[i] == sorted[i] && r[j] == sorted[j - 1]);
                assert(sorted[p].0 <= sorted[j - 1].0);
            } else if i == p {
                assert(r[j] == sorted[j - 1]);
                assert(sorted[p].0 <= sorted[j - 1].0);
            } else {
                assert(r[i] == sorted[i - 1] && r[j] == sorted[j - 1]);
            }
        }
        assert(s =~= init.push(x));
        vstd::seq_lib::to_multiset_build(init, x);
    }
}

/// Assembles the imported book from its chapters, as they came back from their
/// requests; `title`, `book_url` and `source_name` describe it.
pub fn assemble_book(
    title: String,
    book_url: String,
    source_name: String,
    fetched: &Vec<FetchedChapter>,
) -> (r: Result<ExtractedBook, String>)
    ensures
        book_view(r) == spec_assemble_book(title@, book_url@, source_name@, fetched_views(fetched@)),
        r matches Ok(b) ==> b.chapter_count + b.failed_chapters == fetched@.len(),
{
    let ghost vs = fetched_views(fetched@);
    let mut sorted: Vec<FetchedChapter> = Vec::new();
    let mut i: usize = 0;
    assert(vs.subrange(0, 0) =~= Seq::<(usize, Seq<char>, Option<Seq<char>>)>::empty());
    assert(fetched_views(sorted@) =~= Seq::<(usize, Seq<char>, Option<Seq<char>>)>::empty());
    while i < fetched.len()
        invariant
            vs == fetched_views(fetched@),
            i <= fetched.len(),
            fetched_views(sorted@) == by_position(vs.subrange(0, i as int)),
        decreases fetched.len() - i,
    {
        let ghost before = fetched_views(sorted@);
        assert(vs.subrange(0, i + 1).drop_last() =~= vs.subrange(0, i as int));
        assert(vs.subrange(0, i + 1).last() == fetched@[i as int]@);
        let mut p: usize = 0;
        while p < sorted.len() && !(fetched[i].position < sorted[p].position)
            invariant
                i < fetched.len(),
                before == fetched_views(sorted@),
                p <= sorted@.len(),
                position_slot(before, fetched@[i as int]@, 0) == position_slot(before, fetched@[i as int]@, p as int),
            decreases sorted@.len() - p,
        {
            p += 1;
        }
        sorted.insert(p, fetched[i].duplicate());
        assert(fetched_views(sorted@) =~= before.insert(p as int, fetched@[i as int]@));
        i += 1;
    }
    assert(vs.subrange(0, fetched.len() as int) =~= vs);
    let ghost sv = fetched_views(sorted@);
    proof {
        lemma_by_position(vs);
    }
    let mut content = String::new();
    let mut failed: usize = 0;
    let mut k: usize = 0;
    assert(sv.subrange(0, 0) =~= Seq::<(usize, Seq<char>, Option<Seq<char>>)>::empty());
    while k < sorted.len()
        invariant
            sv == fetched_views(sorted@),
            k <= sorted@.len(),
            content@ == book_text(sv.subrange(0, k as int)),
            failed == missing(sv.subrange(0, k as int)),
            failed <= k,
        decreases sorted@.len() - k,
    {
        assert(sv.subrange(0, k + 1).drop_last() =~= sv.subrange(0, k as int));
        let c = &sorted[k];
        match &c.text {
            Some(t) => {
                push_str(&mut content, "\n\n# ");
                push_str(&mut content, c.title.as_str());
                push_str(&mut content, "\n\n");
                push_str(&mut content, t.as_str());
            },
            None => {
                failed += 1;
                assert(content@ =~= content@ + Seq::<char>::empty());
            },
        }
        k += 1;
    }
    assert(sv.subrange(0, sorted@.len() as int) =~= sv);
    if char_count(content.as_str()) < 80 {
        return Err("章节正文均未能读取，书源规则可能失效或需要登录/JavaScript".to_owned());
    }
    let chapter_count = fetched.len() - failed;
    Ok(ExtractedBook { title, content, source_uri: book_url, source_name, chapter_count, failed_chapters: failed })
}

} // verus!
