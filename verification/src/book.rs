//! Books of the library: the text a new book is made of, its chapters, the
//! files it is stored and exported in.

use vstd::prelude::*;
use crate::outside::{
    decode_entities, encode_text, entities_decoded, escape_text, is_uuid, to_lowercase, unicode_lowercase, uuid_valid,
};
use crate::source::{lemma_text_lt_irrefl, lemma_text_lt_trans, text_lt, text_lt_exec};
use crate::rules::{apply_replace, spec_apply_replace, ANY_TAG, BREAK_TAGS};
use crate::text::{
    all_ws, occurs_at, is_ws, lemma_lines_keep, lemma_lines_ws_back, lemma_trim_empty, lemma_trim_idempotent, char_count, chars_of, contains, contains_exec, find, find_from_exec, lemma_trim_keeps, lines, lines_exec, push_str, starts_with,
    starts_with_exec, string_from, trim, trim_exec, trim_str,
};

verus! {

/// The regular expression of three or more line breaks in a row.
pub const BLANK_RUNS: &'static str = "\\n{3,}";

// ---------------------------------------------------------------------------
// Reader text and chapters
// ---------------------------------------------------------------------------

/// A chapter's stored text: line-breaking tags become line breaks, other tags are
/// dropped, HTML entities are decoded, and after trimming, runs of blank lines
/// shrink to one.
pub open spec fn spec_clean_reader_text(raw: Seq<char>) -> Seq<char> {
    let breaks = spec_apply_replace(raw, Some((BREAK_TAGS@, "\n"@)));
    let tags = spec_apply_replace(breaks, Some((ANY_TAG@, ""@)));
    let text = entities_decoded(tags);
    spec_apply_replace(trim(text), Some((BLANK_RUNS@, "\n\n"@)))
}

/// A chapter's stored text.
pub fn clean_reader_text(raw: &str) -> (r: String)
    ensures
        r@ == spec_clean_reader_text(raw@),
{
    let breaks = apply_replace(raw.to_owned(), &Some((BREAK_TAGS.to_owned(), "\n".to_owned())));
    let tags = apply_replace(breaks, &Some((ANY_TAG.to_owned(), "".to_owned())));
    let text = decode_entities(tags.as_str());
    let t = trim_str(text.as_str());
    apply_replace(t, &Some((BLANK_RUNS.to_owned(), "\n\n".to_owned())))
}

/// The title a chapter is stored under: its heading, or the book's title when it
/// has none.
pub open spec fn chapter_title(book_title: Seq<char>, title: Seq<char>) -> Seq<char> {
    if title.len() == 0 {
        book_title
    } else {
        title
    }
}

/// A chapter is pending: it has a heading or some non-blank text.
pub open spec fn pending(title: Seq<char>, body: Seq<char>) -> bool {
    title.len() > 0 || trim(body).len() > 0
}

/// The chapters found in the first lines of a text, with the heading and the text
/// of the chapter still open: a line `# heading` closes the open chapter (when it
/// is pending) and opens one under that heading; other lines add to the open one.
pub open spec fn scan_lines(book_title: Seq<char>, ls: Seq<Seq<char>>) -> (Seq<(Seq<char>, Seq<char>)>, Seq<char>, Seq<char>)
    decreases ls.len(),
{
    if ls.len() == 0 {
        (Seq::empty(), Seq::empty(), Seq::empty())
    } else {
        let prev = scan_lines(book_title, ls.drop_last());
        let line = ls.last();
        if starts_with(line, "# "@) {
            let done = if pending(prev.1, prev.2) {
                prev.0.push((chapter_title(book_title, prev.1), spec_clean_reader_text(prev.2)))
            } else {
                prev.0
            };
            (done, trim(line.subrange(2, line.len() as int)), Seq::empty())
        } else {
            (prev.0, prev.1, prev.2 + line + "\n"@)
        }
    }
}

/// The chapters of a book's text: split at lines `# heading`, each with its
/// cleaned text; text before the first heading is a chapter under the book's
/// title; a text with no chapter but some content is one chapter.
pub open spec fn spec_chapters_from_content(book_title: Seq<char>, content: Seq<char>) -> Seq<(Seq<char>, Seq<char>)> {
    let last = scan_lines(book_title, lines(content));
    let all = if pending(last.1, last.2) {
        last.0.push((chapter_title(book_title, last.1), spec_clean_reader_text(last.2)))
    } else {
        last.0
    };
    if all.len() == 0 && trim(content).len() > 0 {
        seq![(book_title, spec_clean_reader_text(content))]
    } else {
        all
    }
}

proof fn lemma_scan_blank(book_title: Seq<char>, ls: Seq<Seq<char>>)
    requires
        forall|k: int| 0 <= k < ls.len() ==> all_ws(#[trigger] ls[k]),
    ensures
        scan_lines(book_title, ls).0.len() == 0,
        scan_lines(book_title, ls).1.len() == 0,
        all_ws(scan_lines(book_title, ls).2),
    decreases ls.len(),
{
    if ls.len() > 0 {
        let prev = scan_lines(book_title, ls.drop_last());
        lemma_scan_blank(book_title, ls.drop_last());
        let line = ls.last();
        assert(all_ws(line));
        reveal_strlit("# ");
        if starts_with(line, "# "@) {
            assert(line.subrange(0, 2)[0] == line[0]);
            assert("# "@[0] == '#');
            assert(is_ws(line[0]));
            assert(false);
        }
        reveal_strlit("\n");
        let body = prev.2 + line + "\n"@;
        assert forall|i: int| 0 <= i < body.len() implies is_ws(#[trigger] body[i]) by {
            if i < prev.2.len() {
                assert(body[i] == prev.2[i]);
            } else if i < prev.2.len() + line.len() {
                assert(body[i] == line[i - prev.2.len()]);
            }
        }
    }
}

/// A text gives no chapter exactly when it is blank.
pub proof fn lemma_chapters_empty(book_title: Seq<char>, content: Seq<char>)
    ensures
        spec_chapters_from_content(book_title, content).len() == 0 <==> trim(content).len() == 0,
{
    lemma_trim_empty(content);
    if trim(content).len() == 0 {
        let ws = |c: char| is_ws(c);
        lemma_lines_keep(content, ws);
        let ls = lines(content);
        assert forall|k: int| 0 <= k < ls.len() implies all_ws(#[trigger] ls[k]) by {
            assert forall|i: int| 0 <= i < ls[k].len() implies is_ws(#[trigger] ls[k][i]) by {
                assert(ws(ls[k][i]));
            }
        }
        lemma_scan_blank(book_title, ls);
        lemma_trim_empty(scan_lines(book_title, ls).2);
    }
}

/// A line that opens a chapter: `# heading`.
pub open spec fn is_heading(line: Seq<char>) -> bool {
    starts_with(line, "# "@)
}

/// The title a heading line gives its chapter.
pub open spec fn heading_title(line: Seq<char>) -> Seq<char> {
    trim(line.subrange(2, line.len() as int))
}

/// Lines put together, each followed by `\n`.
pub open spec fn body_text(ls: Seq<Seq<char>>) -> Seq<char>
    decreases ls.len(),
{
    if ls.len() == 0 {
        Seq::empty()
    } else {
        body_text(ls.drop_last()) + ls.last() + "\n"@
    }
}

/// The positions of the heading lines, in order.
pub open spec fn headings(ls: Seq<Seq<char>>) -> Seq<int>
    decreases ls.len(),
{
    if ls.len() == 0 {
        Seq::empty()
    } else if is_heading(ls.last()) {
        headings(ls.drop_last()).push(ls.len() - 1)
    } else {
        headings(ls.drop_last())
    }
}

/// Where the `m`-th heading's chapter ends: at the next heading, or at the end.
pub open spec fn section_end(ls: Seq<Seq<char>>, hs: Seq<int>, m: int) -> int {
    if m + 1 < hs.len() {
        hs[m + 1]
    } else {
        ls.len() as int
    }
}

/// The chapter of the `m`-th heading: its title, and the cleaned text of the lines
/// after it up to the next heading.
pub open spec fn section(ls: Seq<Seq<char>>, hs: Seq<int>, m: int) -> (Seq<char>, Seq<char>) {
    (heading_title(ls[hs[m]]), spec_clean_reader_text(body_text(ls.subrange(hs[m] + 1, section_end(ls, hs, m)))))
}

/// The chapter of the lines before the first heading, under the book's title, when
/// they are not blank.
pub open spec fn opening(book_title: Seq<char>, ls: Seq<Seq<char>>, hs: Seq<int>) -> Seq<(Seq<char>, Seq<char>)> {
    let pre = body_text(ls.subrange(0, if hs.len() > 0 { hs[0] } else { ls.len() as int }));
    if trim(pre).len() > 0 {
        seq![(book_title, spec_clean_reader_text(pre))]
    } else {
        Seq::empty()
    }
}

/// The chapters of lines with headings: the opening chapter, then one chapter per
/// heading, in order.
pub open spec fn sections(book_title: Seq<char>, ls: Seq<Seq<char>>) -> Seq<(Seq<char>, Seq<char>)> {
    let hs = headings(ls);
    opening(book_title, ls, hs) + Seq::new(hs.len(), |m: int| section(ls, hs, m))
}

proof fn lemma_headings(ls: Seq<Seq<char>>)
    ensures
        forall|m: int| 0 <= m < headings(ls).len() ==> 0 <= #[trigger] headings(ls)[m] < ls.len() && is_heading(
            ls[headings(ls)[m]],
        ),
        forall|m: int, n: int| 0 <= m < n < headings(ls).len() ==> #[trigger] headings(ls)[m] < #[trigger] headings(ls)[n],
    decreases ls.len(),
{
    if ls.len() > 0 {
        let init = ls.drop_last();
        lemma_headings(init);
        let h = headings(init);
        assert forall|m: int| 0 <= m < h.len() implies #[trigger] init[h[m]] == ls[h[m]] by {}
    }
}

proof fn lemma_body_text_push(ls: Seq<Seq<char>>, l: Seq<char>)
    ensures
        body_text(ls.push(l)) == body_text(ls) + l + "\n"@,
{
    assert(ls.push(l).drop_last() =~= ls);
}

/// What the scan of some lines holds, when every heading has a title: no chapter
/// and all lines as the open text before the first heading; after it, the opening
/// chapter and the chapters of all headings but the last, with the last one open.
proof fn lemma_scan_sections(book_title: Seq<char>, ls: Seq<Seq<char>>)
    requires
        forall|k: int| 0 <= k < ls.len() && is_heading(#[trigger] ls[k]) ==> heading_title(ls[k]).len() > 0,
    ensures
        headings(ls).len() == 0 ==> scan_lines(book_title, ls) == (Seq::<(Seq<char>, Seq<char>)>::empty(), Seq::<char>::empty(), body_text(ls)),
        headings(ls).len() > 0 ==> scan_lines(book_title, ls) == (
            opening(book_title, ls, headings(ls)) + Seq::new((headings(ls).len() - 1) as nat, |m: int| section(ls, headings(ls), m)),
            heading_title(ls[headings(ls).last()]),
            body_text(ls.subrange(headings(ls).last() + 1, ls.len() as int)),
        ),
    decreases ls.len(),
{
    if ls.len() > 0 {
        let init = ls.drop_last();
        let l = ls.last();
        assert forall|k: int| 0 <= k < init.len() && is_heading(#[trigger] init[k]) implies heading_title(init[k]).len() > 0 by {
            assert(init[k] == ls[k]);
        }
        lemma_scan_sections(book_title, init);
        lemma_headings(init);
        lemma_headings(ls);
        assert(init.push(l) =~= ls);
        lemma_body_text_push(init, l);
        let h = headings(init);
        let hs = headings(ls);
        let prev = scan_lines(book_title, init);
        let n = init.len() as int;
        assert forall|m: int| 0 <= m < h.len() implies #[trigger] ls[h[m]] == init[h[m]] by {}
        if is_heading(l) {
            assert(hs == h.push(n));
            assert(heading_title(ls[n]).len() > 0);
            assert(ls.subrange(n + 1, ls.len() as int) =~= Seq::<Seq<char>>::empty());
            if h.len() == 0 {
                assert(ls.subrange(0, hs[0]) =~= init);
                assert(init.subrange(0, n) =~= init);
                assert(Seq::new((hs.len() - 1) as nat, |m: int| section(ls, hs, m)) =~= Seq::<(Seq<char>, Seq<char>)>::empty());
                if pending(prev.1, prev.2) {
                    assert(scan_lines(book_title, ls).0 =~= opening(book_title, ls, hs) + Seq::new(
                        (hs.len() - 1) as nat,
                        |m: int| section(ls, hs, m),
                    ));
                } else {
                    assert(scan_lines(book_title, ls).0 =~= opening(book_title, ls, hs) + Seq::new(
                        (hs.len() - 1) as nat,
                        |m: int| section(ls, hs, m),
                    ));
                }
            } else {
                let last = h.last();
                assert(pending(prev.1, prev.2));
                assert(chapter_title(book_title, prev.1) == prev.1);
                assert(ls.subrange(0, hs[0]) =~= init.subrange(0, h[0]));
                let old_s = Seq::new((h.len() - 1) as nat, |m: int| section(init, h, m));
                let new_s = Seq::new((hs.len() - 1) as nat, |m: int| section(ls, hs, m));
                assert forall|m: int| 0 <= m < new_s.len() implies #[trigger] new_s[m] == old_s.push(
                    (prev.1, spec_clean_reader_text(prev.2)),
                )[m] by {
                    if m + 1 < h.len() {
                        assert(section_end(ls, hs, m) == h[m + 1]);
                        assert(section_end(init, h, m) == h[m + 1]);
                        assert(ls.subrange(h[m] + 1, h[m + 1]) =~= init.subrange(h[m] + 1, h[m + 1]));
                    } else {
                        assert(m == h.len() - 1);
                        assert(section_end(ls, hs, m) == n);
                        assert(ls.subrange(last + 1, n) =~= init.subrange(last + 1, n));
                    }
                }
                assert(new_s =~= old_s.push((prev.1, spec_clean_reader_text(prev.2))));
                assert(scan_lines(book_title, ls).0 =~= opening(book_title, ls, hs) + new_s);
            }
        } else {
            assert(hs == h);
            if h.len() > 0 {
                let last = h.last();
                assert(ls.subrange(last + 1, ls.len() as int) =~= init.subrange(last + 1, n).push(l));
                lemma_body_text_push(init.subrange(last + 1, n), l);
                assert(ls.subrange(0, hs[0]) =~= init.subrange(0, h[0]));
                let old_s = Seq::new((h.len() - 1) as nat, |m: int| section(init, h, m));
                let new_s = Seq::new((hs.len() - 1) as nat, |m: int| section(ls, hs, m));
                assert forall|m: int| 0 <= m < new_s.len() implies #[trigger] new_s[m] == old_s[m] by {
                    assert(section_end(ls, hs, m) == h[m + 1]);
                    assert(section_end(init, h, m) == h[m + 1]);
                    assert(ls.subrange(h[m] + 1, h[m + 1]) =~= init.subrange(h[m] + 1, h[m + 1]));
                }
                assert(new_s =~= old_s);
            }
        }
    }
}

proof fn lemma_body_ws(ls: Seq<Seq<char>>)
    requires
        all_ws(body_text(ls)),
    ensures
        forall|k: int| 0 <= k < ls.len() ==> all_ws(#[trigger] ls[k]),
    decreases ls.len(),
{
    if ls.len() > 0 {
        let init = ls.drop_last();
        let b = body_text(ls);
        let bi = body_text(init);
        assert(b == bi + ls.last() + "\n"@);
        assert forall|i: int| 0 <= i < bi.len() implies is_ws(#[trigger] bi[i]) by {
            assert(b[i] == bi[i]);
        }
        lemma_body_ws(init);
        assert forall|k: int| 0 <= k < ls.len() implies all_ws(#[trigger] ls[k]) by {
            if k < ls.len() - 1 {
                assert(ls[k] == init[k]);
            } else {
                assert forall|i: int| 0 <= i < ls[k].len() implies is_ws(#[trigger] ls[k][i]) by {
                    assert(b[bi.len() + i] == ls[k][i]);
                }
            }
        }
    }
}

/// With every heading titled, a text gives, in order, the chapter of the lines
/// before the first heading (under the book's title, when they are not blank) and
/// one chapter per heading line, titled by the heading and holding the cleaned
/// text of the lines after it up to the next heading.
pub proof fn lemma_chapters_by_heading(book_title: Seq<char>, content: Seq<char>)
    requires
        forall|k: int| 0 <= k < lines(content).len() && is_heading(#[trigger] lines(content)[k])
            ==> heading_title(lines(content)[k]).len() > 0,
    ensures
        spec_chapters_from_content(book_title, content) == sections(book_title, lines(content)),
{
    let ls = lines(content);
    lemma_scan_sections(book_title, ls);
    lemma_headings(ls);
    let hs = headings(ls);
    let last = scan_lines(book_title, ls);
    if hs.len() > 0 {
        assert(ls[hs.last()] == ls[hs[hs.len() - 1]]);
        assert(pending(last.1, last.2));
        let m = hs.len() - 1;
        assert(section_end(ls, hs, m) == ls.len());
        let prefix = Seq::new((hs.len() - 1) as nat, |m: int| section(ls, hs, m));
        let full = Seq::new(hs.len(), |m: int| section(ls, hs, m));
        assert(full =~= prefix.push((last.1, spec_clean_reader_text(last.2))));
        assert(spec_chapters_from_content(book_title, content) =~= sections(book_title, lines(content)));
    } else {
        assert(ls.subrange(0, ls.len() as int) =~= ls);
        assert(Seq::new(hs.len(), |m: int| section(ls, hs, m)) =~= Seq::<(Seq<char>, Seq<char>)>::empty());
        if trim(body_text(ls)).len() == 0 {
            lemma_trim_empty(body_text(ls));
            lemma_body_ws(ls);
            lemma_lines_ws_back(content);
            lemma_trim_empty(content);
        }
        assert(spec_chapters_from_content(book_title, content) =~= sections(book_title, lines(content)));
    }
}

/// The views of (title, text) pairs.
pub open spec fn pairs_view(v: Seq<(String, String)>) -> Seq<(Seq<char>, Seq<char>)> {
    v.map_values(|p: (String, String)| (p.0@, p.1@))
}

/// Whether a text, trimmed, is not empty.
fn has_content(s: &str) -> (b: bool)
    ensures
        b == (trim(s@).len() > 0),
{
    trim_exec(&chars_of(s)).len() > 0
}

/// The chapters of a book's text, each as its title and cleaned text.
pub fn chapters_from_content(book_title: &str, content: &str) -> (r: Vec<(String, String)>)
    ensures
        pairs_view(r@) == spec_chapters_from_content(book_title@, content@),
        r@.len() == 0 <==> trim(content@).len() == 0,
        (forall|k: int| 0 <= k < lines(content@).len() && is_heading(#[trigger] lines(content@)[k])
            ==> heading_title(lines(content@)[k]).len() > 0) ==> pairs_view(r@) == sections(book_title@, lines(content@)),
{
    proof {
        lemma_chapters_empty(book_title@, content@);
        if forall|k: int| 0 <= k < lines(content@).len() && is_heading(#[trigger] lines(content@)[k])
            ==> heading_title(lines(content@)[k]).len() > 0 {
            lemma_chapters_by_heading(book_title@, content@);
        }
    }
    let ls = lines_exec(content);
    let ghost lv = ls.deep_view();
    let mut chapters: Vec<(String, String)> = Vec::new();
    let mut title = String::new();
    let mut body = String::new();
    let hash = chars_of("# ");
    proof {
        reveal_strlit("# ");
    }
    let mut i: usize = 0;
    assert(lv.subrange(0, 0) =~= Seq::<Seq<char>>::empty());
    assert(pairs_view(chapters@) =~= Seq::<(Seq<char>, Seq<char>)>::empty());
    while i < ls.len()
        invariant
            lv == ls.deep_view(),
            hash@ == "# "@,
            "# "@ =~= seq!['#', ' '],
            i <= lv.len(),
            (pairs_view(chapters@), title@, body@) == scan_lines(book_title@, lv.subrange(0, i as int)),
        decreases lv.len() - i,
    {
        assert(lv.subrange(0, i + 1).drop_last() =~= lv.subrange(0, i as int));
        assert(lv[i as int] == ls@[i as int]@);
        let lc = chars_of(ls[i].as_str());
        if starts_with_exec(&lc, &hash) {
            if !title.as_str().is_empty() || has_content(body.as_str()) {
                let heading = if title.as_str().is_empty() { book_title.to_owned() } else { title.clone() };
                let text = clean_reader_text(body.as_str());
                let ghost before = pairs_view(chapters@);
                chapters.push((heading, text));
                assert(pairs_view(chapters@) =~= before.push((heading@, text@)));
            }
            let next = string_from(&lc, 2, lc.len());
            title = trim_str(next.as_str());
            body = String::new();
        } else {
            push_str(&mut body, ls[i].as_str());
            push_str(&mut body, "\n");
        }
        i += 1;
    }
    assert(lv.subrange(0, lv.len() as int) =~= lv);
    if !title.as_str().is_empty() || has_content(body.as_str()) {
        let heading = if title.as_str().is_empty() { book_title.to_owned() } else { title.clone() };
        let text = clean_reader_text(body.as_str());
        let ghost before = pairs_view(chapters@);
        chapters.push((heading, text));
        assert(pairs_view(chapters@) =~= before.push((heading@, text@)));
    }
    if chapters.len() == 0 && has_content(content) {
        let text = clean_reader_text(content);
        let mut one: Vec<(String, String)> = Vec::new();
        one.push((book_title.to_owned(), text));
        assert(pairs_view(one@) =~= seq![(book_title@, text@)]);
        return one;
    }
    chapters
}

// ---------------------------------------------------------------------------
// New books and their files
// ---------------------------------------------------------------------------

/// A new book is refused without a title or with fewer than 80 characters of
/// text (both trimmed); it is stored with its trimmed title and text.
pub open spec fn spec_validate_new_book(title: Seq<char>, content: Seq<char>) -> Result<(Seq<char>, Seq<char>), Seq<char>> {
    if trim(title).len() == 0 {
        Err("请输入作品名"@)
    } else if trim(content).len() < 80 {
        Err("正文至少需要 80 个字符"@)
    } else {
        Ok((trim(title), trim(content)))
    }
}

/// The view of a validated pair of texts.
pub open spec fn pair_result_view(r: Result<(String, String), String>) -> Result<(Seq<char>, Seq<char>), Seq<char>> {
    match r {
        Ok((a, b)) => Ok((a@, b@)),
        Err(e) => Err(e@),
    }
}

/// Checks the title and text of a new book; returns them trimmed.
pub fn validate_new_book(title: &str, content: &str) -> (r: Result<(String, String), String>)
    ensures
        pair_result_view(r) == spec_validate_new_book(title@, content@),
{
    let t = trim_str(title);
    let c = trim_str(content);
    if t.as_str().is_empty() {
        Err("请输入作品名".to_owned())
    } else if char_count(c.as_str()) < 80 {
        Err("正文至少需要 80 个字符".to_owned())
    } else {
        Ok((t, c))
    }
}

/// The file a book is stored in: its id, which must be a UUID, and `.sqlite`.
pub open spec fn spec_book_file_name(id: Seq<char>) -> Result<Seq<char>, Seq<char>> {
    if is_uuid(id) {
        Ok(id + ".sqlite"@)
    } else {
        Err("无效的书籍 ID"@)
    }
}

/// The file a book is stored in.
pub fn book_file_name(id: &str) -> (r: Result<String, String>)
    ensures
        crate::web::text_result_view(r) == spec_book_file_name(id@),
{
    if uuid_valid(id) {
        let mut n = id.to_owned();
        push_str(&mut n, ".sqlite");
        Ok(n)
    } else {
        Err("无效的书籍 ID".to_owned())
    }
}

// ---------------------------------------------------------------------------
// Export
// ---------------------------------------------------------------------------

/// A character that file names cannot hold.
pub open spec fn unsafe_in_file_name(c: char) -> bool {
    c == '/' || c == '\\' || c == ':' || c == '*' || c == '?' || c == '"' || c == '<' || c == '>' || c == '|'
}

/// A title made fit for a file name: each character that file names cannot hold
/// becomes `_`, and the result is trimmed.
pub open spec fn spec_safe_file_name(value: Seq<char>) -> Seq<char> {
    trim(value.map_values(|c: char| if unsafe_in_file_name(c) { '_' } else { c }))
}

/// A title made fit for a file name.
pub fn safe_file_name(value: &str) -> (r: String)
    ensures
        r@ == spec_safe_file_name(value@),
        forall|i: int| 0 <= i < r@.len() ==> !unsafe_in_file_name(#[trigger] r@[i]),
        trim(r@) == r@,
        spec_safe_file_name(r@) == r@,
        r@.len() <= value@.len(),
{
    let v = chars_of(value);
    let mut out: Vec<char> = Vec::new();
    let mut i: usize = 0;
    while i < v.len()
        invariant
            i <= v@.len(),
            out@ == v@.subrange(0, i as int).map_values(|c: char| if unsafe_in_file_name(c) { '_' } else { c }),
        decreases v@.len() - i,
    {
        let c = v[i];
        let d = if c == '/' || c == '\\' || c == ':' || c == '*' || c == '?' || c == '"' || c == '<' || c == '>' || c == '|' {
            '_'
        } else {
            c
        };
        out.push(d);
        i += 1;
        assert(out@ =~= v@.subrange(0, i as int).map_values(|c: char| if unsafe_in_file_name(c) { '_' } else { c }));
    }
    assert(v@.subrange(0, v@.len() as int) =~= v@);
    proof {
        lemma_trim_keeps(out@, |c: char| !unsafe_in_file_name(c));
    }
    let t = trim_exec(&out);
    let r = crate::text::string_of(&t);
    proof {
        lemma_trim_idempotent(out@);
        let m = r@.map_values(|c: char| if unsafe_in_file_name(c) { '_' } else { c });
        assert(m =~= r@);
    }
    r
}

/// A book is exported only once its chapters were read.
pub fn check_export(chapter_count: usize) -> (r: Result<(), String>)
    ensures
        r is Ok <==> chapter_count > 0,
        r matches Err(e) ==> e@ == "书籍尚未下载章节，无法导出"@,
{
    if chapter_count == 0 {
        Err("书籍尚未下载章节，无法导出".to_owned())
    } else {
        Ok(())
    }
}

/// The name of an exported file: the title fit for a file name, the time stamp,
/// and the extension of the format, which is `txt` or `docx`.
pub open spec fn spec_export_file_name(title: Seq<char>, stamp: Seq<char>, format: Seq<char>) -> Result<Seq<char>, Seq<char>> {
    if format == "txt"@ {
        Ok(spec_safe_file_name(title) + "-"@ + stamp + ".txt"@)
    } else if format == "docx"@ {
        Ok(spec_safe_file_name(title) + "-"@ + stamp + ".docx"@)
    } else {
        Err("仅支持 txt 或 docx 导出"@)
    }
}

/// The name of an exported file.
pub fn export_file_name(title: &str, stamp: &str, format: &str) -> (r: Result<String, String>)
    ensures
        crate::web::text_result_view(r) == spec_export_file_name(title@, stamp@, format@),
{
    let fv = chars_of(format);
    let ext = if crate::html::eq_chars(&fv, "txt") {
        ".txt"
    } else if crate::html::eq_chars(&fv, "docx") {
        ".docx"
    } else {
        return Err("仅支持 txt 或 docx 导出".to_owned());
    };
    let mut n = safe_file_name(title);
    push_str(&mut n, "-");
    push_str(&mut n, stamp);
    push_str(&mut n, ext);
    Ok(n)
}

/// The text of a plain-text export: the title in `《》`, then each chapter's title
/// and text, each followed by a blank line.
pub open spec fn txt_chapters(chapters: Seq<(Seq<char>, Seq<char>)>) -> Seq<char>
    decreases chapters.len(),
{
    if chapters.len() == 0 {
        Seq::empty()
    } else {
        txt_chapters(chapters.drop_last()) + chapters.last().0 + "\n\n"@ + chapters.last().1 + "\n\n"@
    }
}

/// The text of a plain-text export.
pub open spec fn spec_txt_export(title: Seq<char>, chapters: Seq<(Seq<char>, Seq<char>)>) -> Seq<char> {
    "《"@ + title + "》\n\n"@ + txt_chapters(chapters)
}

/// The text of a plain-text export.
pub fn txt_export(title: &str, chapters: &Vec<(String, String)>) -> (r: String)
    ensures
        r@ == spec_txt_export(title@, pairs_view(chapters@)),
{
    let ghost cv = pairs_view(chapters@);
    let mut out = "《".to_owned();
    push_str(&mut out, title);
    push_str(&mut out, "》\n\n");
    let ghost head = out@;
    let mut i: usize = 0;
    assert(cv.subrange(0, 0) =~= Seq::<(Seq<char>, Seq<char>)>::empty());
    assert(out@ =~= head + txt_chapters(cv.subrange(0, 0)));
    while i < chapters.len()
        invariant
            cv == pairs_view(chapters@),
            i <= chapters@.len(),
            out@ == head + txt_chapters(cv.subrange(0, i as int)),
        decreases chapters@.len() - i,
    {
        assert(cv.subrange(0, i + 1).drop_last() =~= cv.subrange(0, i as int));
        push_str(&mut out, chapters[i].0.as_str());
        push_str(&mut out, "\n\n");
        push_str(&mut out, chapters[i].1.as_str());
        push_str(&mut out, "\n\n");
        i += 1;
        assert(out@ =~= head + txt_chapters(cv.subrange(0, i as int)));
    }
    assert(cv.subrange(0, chapters@.len() as int) =~= cv);
    out
}

/// The package part that declares the content types of a Word document.
pub const DOCX_CONTENT_TYPES: &'static str = r#"<?xml version="1.0" encoding="UTF-8" standalone="yes"?><Types xmlns="http://schemas.openxmlformats.org/package/2006/content-types"><Default Extension="rels" ContentType="application/vnd.openxmlformats-package.relationships+xml"/><Default Extension="xml" ContentType="application/xml"/><Override PartName="/word/document.xml" ContentType="application/vnd.openxmlformats-officedocument.wordprocessingml.document.main+xml"/><Override PartName="/word/styles.xml" ContentType="application/vnd.openxmlformats-officedocument.wordprocessingml.styles+xml"/></Types>"#;

/// The package part that points to the document.
pub const DOCX_RELS: &'static str = r#"<?xml version="1.0" encoding="UTF-8" standalone="yes"?><Relationships xmlns="http://schemas.openxmlformats.org/package/2006/relationships"><Relationship Id="rId1" Type="http://schemas.openxmlformats.org/officeDocument/2006/relationships/officeDocument" Target="word/document.xml"/></Relationships>"#;

/// The styles of the document: normal paragraphs and first-level headings.
pub const DOCX_STYLES: &'static str = r#"<?xml version="1.0" encoding="UTF-8" standalone="yes"?><w:styles xmlns:w="http://schemas.openxmlformats.org/wordprocessingml/2006/main"><w:style w:type="paragraph" w:default="1" w:styleId="Normal"><w:name w:val="Normal"/></w:style><w:style w:type="paragraph" w:styleId="Heading1"><w:name w:val="heading 1"/><w:basedOn w:val="Normal"/><w:pPr><w:spacing w:before="360" w:after="240"/></w:pPr><w:rPr><w:b/><w:sz w:val="34"/></w:rPr></w:style></w:styles>"#;

/// The start of the document part, up to its body.
pub const DOCX_DOCUMENT_HEAD: &'static str = r#"<?xml version="1.0" encoding="UTF-8" standalone="yes"?><w:document xmlns:w="http://schemas.openxmlformats.org/wordprocessingml/2006/main"><w:body>"#;

/// The end of the document part: the A4 page with its margins.
pub const DOCX_DOCUMENT_TAIL: &'static str = r#"<w:sectPr><w:pgSz w:w="11906" w:h="16838"/><w:pgMar w:top="1440" w:right="1440" w:bottom="1440" w:left="1440"/></w:sectPr></w:body></w:document>"#;

/// An empty paragraph.
pub const DOCX_EMPTY_PARAGRAPH: &'static str = "<w:p/>";

/// Before a heading's text.
pub const DOCX_HEADING_OPEN: &'static str = r#"<w:p><w:pPr><w:pStyle w:val="Heading1"/></w:pPr><w:r><w:t>"#;

/// Before a body paragraph's text: indented first line, double spacing, 12 pt.
pub const DOCX_BODY_OPEN: &'static str = r#"<w:p><w:pPr><w:ind w:firstLine="420"/><w:spacing w:line="480" w:lineRule="auto"/></w:pPr><w:r><w:rPr><w:sz w:val="24"/></w:rPr><w:t xml:space="preserve">"#;

/// After a paragraph's text.
pub const DOCX_PARAGRAPH_CLOSE: &'static str = "</w:t></w:r></w:p>";

/// A paragraph of the document: a heading or a body paragraph, its text escaped.
pub open spec fn spec_docx_paragraph(text: Seq<char>, heading: bool) -> Seq<char> {
    (if heading { DOCX_HEADING_OPEN@ } else { DOCX_BODY_OPEN@ }) + escape_text(text) + DOCX_PARAGRAPH_CLOSE@
}

/// A paragraph of the document.
pub fn docx_paragraph(text: &str, heading: bool) -> (r: String)
    ensures
        r@ == spec_docx_paragraph(text@, heading),
{
    let mut r = if heading { DOCX_HEADING_OPEN.to_owned() } else { DOCX_BODY_OPEN.to_owned() };
    let escaped = encode_text(text);
    push_str(&mut r, escaped.as_str());
    push_str(&mut r, DOCX_PARAGRAPH_CLOSE);
    r
}

/// The paragraphs of a chapter's lines: a blank line is an empty paragraph.
pub open spec fn docx_lines(ls: Seq<Seq<char>>) -> Seq<char>
    decreases ls.len(),
{
    if ls.len() == 0 {
        Seq::empty()
    } else {
        docx_lines(ls.drop_last()) + if trim(ls.last()).len() == 0 {
            DOCX_EMPTY_PARAGRAPH@
        } else {
            spec_docx_paragraph(ls.last(), false)
        }
    }
}

/// The chapters of the document: each a heading and the paragraphs of its lines.
pub open spec fn docx_chapters(chapters: Seq<(Seq<char>, Seq<char>)>) -> Seq<char>
    decreases chapters.len(),
{
    if chapters.len() == 0 {
        Seq::empty()
    } else {
        docx_chapters(chapters.drop_last()) + spec_docx_paragraph(chapters.last().0, true) + docx_lines(lines(chapters.last().1))
    }
}

/// The document part of a Word export: the book's title as a heading, then the
/// chapters.
pub open spec fn spec_docx_document(title: Seq<char>, chapters: Seq<(Seq<char>, Seq<char>)>) -> Seq<char> {
    DOCX_DOCUMENT_HEAD@ + spec_docx_paragraph(title, true) + docx_chapters(chapters) + DOCX_DOCUMENT_TAIL@
}

/// The length of the paragraphs of chapter `c`: its heading and its lines.
pub open spec fn docx_chapter_len(c: (Seq<char>, Seq<char>)) -> nat {
    DOCX_HEADING_OPEN@.len() + escape_text(c.0).len() + DOCX_PARAGRAPH_CLOSE@.len() + docx_lines(lines(c.1)).len()
}

/// The total length of the paragraphs of the first `i` chapters.
pub open spec fn docx_chapters_len(chapters: Seq<(Seq<char>, Seq<char>)>, i: int) -> nat
    decreases i,
{
    if i <= 0 {
        0
    } else {
        docx_chapters_len(chapters, i - 1) + docx_chapter_len(chapters[i - 1])
    }
}

/// Where chapter `i` starts in the document: after the document's head, the book's
/// title heading and the chapters before it.
pub open spec fn docx_chapter_start(title: Seq<char>, chapters: Seq<(Seq<char>, Seq<char>)>, i: int) -> int {
    (DOCX_DOCUMENT_HEAD@.len() + DOCX_HEADING_OPEN@.len() + escape_text(title).len() + DOCX_PARAGRAPH_CLOSE@.len()
        + docx_chapters_len(chapters, i)) as int
}

proof fn lemma_docx_chapters_at(chapters: Seq<(Seq<char>, Seq<char>)>)
    ensures
        docx_chapters(chapters).len() == docx_chapters_len(chapters, chapters.len() as int),
        forall|i: int| 0 <= i < chapters.len() ==> occurs_at(
            docx_chapters(chapters),
            DOCX_HEADING_OPEN@ + escape_text((#[trigger] chapters[i]).0) + DOCX_PARAGRAPH_CLOSE@ + docx_lines(lines(chapters[i].1)),
            docx_chapters_len(chapters, i) as int,
        ),
    decreases chapters.len(),
{
    if chapters.len() > 0 {
        let front = chapters.drop_last();
        lemma_docx_chapters_at(front);
        lemma_docx_chapters_len_prefix(chapters, front, front.len() as int);
        let whole = docx_chapters(chapters);
        let d = docx_chapters(front);
        assert forall|i: int| 0 <= i < chapters.len() implies occurs_at(
            whole,
            DOCX_HEADING_OPEN@ + escape_text((#[trigger] chapters[i]).0) + DOCX_PARAGRAPH_CLOSE@ + docx_lines(lines(chapters[i].1)),
            docx_chapters_len(chapters, i) as int,
        ) by {
            let p = DOCX_HEADING_OPEN@ + escape_text(chapters[i].0) + DOCX_PARAGRAPH_CLOSE@ + docx_lines(lines(chapters[i].1));
            lemma_docx_chapters_len_prefix(chapters, front, i);
            let o: int = docx_chapters_len(chapters, i) as int;
            if i < front.len() {
                assert(front[i] == chapters[i]);
                assert(occurs_at(d, p, o));
                assert(whole.subrange(o, o + p.len()) =~= d.subrange(o, o + p.len()));
            } else {
                assert(chapters[i] == chapters.last());
                assert(whole =~= d + p);
                assert(whole.subrange(o, o + p.len()) =~= p);
            }
        }
    }
}

proof fn lemma_docx_chapters_len_prefix(chapters: Seq<(Seq<char>, Seq<char>)>, front: Seq<(Seq<char>, Seq<char>)>, i: int)
    requires
        front.len() <= chapters.len(),
        forall|k: int| 0 <= k < front.len() ==> front[k] == chapters[k],
        0 <= i <= front.len(),
    ensures
        docx_chapters_len(front, i) == docx_chapters_len(chapters, i),
    decreases i,
{
    if i > 0 {
        lemma_docx_chapters_len_prefix(chapters, front, i - 1);
    }
}

/// The Word document holds the book's title as a heading paragraph right after the
/// document's head, and then, for every chapter in order, a heading paragraph with
/// the chapter's escaped title followed at once by the paragraphs of the chapter's
/// lines; each chapter starts where the one before it ends, and the document's tail
/// comes last.
pub proof fn lemma_docx_layout(title: Seq<char>, chapters: Seq<(Seq<char>, Seq<char>)>)
    ensures
        occurs_at(
            spec_docx_document(title, chapters),
            DOCX_HEADING_OPEN@ + escape_text(title) + DOCX_PARAGRAPH_CLOSE@,
            DOCX_DOCUMENT_HEAD@.len() as int,
        ),
        forall|i: int| 0 <= i < chapters.len() ==> occurs_at(
            spec_docx_document(title, chapters),
            DOCX_HEADING_OPEN@ + escape_text((#[trigger] chapters[i]).0) + DOCX_PARAGRAPH_CLOSE@ + docx_lines(lines(chapters[i].1)),
            docx_chapter_start(title, chapters, i),
        ),
        forall|i: int| 0 <= i < chapters.len() ==> #[trigger] docx_chapter_start(title, chapters, i + 1)
            == docx_chapter_start(title, chapters, i) + docx_chapter_len(chapters[i]),
        spec_docx_document(title, chapters).len()
            == docx_chapter_start(title, chapters, chapters.len() as int) + DOCX_DOCUMENT_TAIL@.len(),
{
    lemma_docx_chapters_at(chapters);
    let doc = spec_docx_document(title, chapters);
    let h = DOCX_HEADING_OPEN@ + escape_text(title) + DOCX_PARAGRAPH_CLOSE@;
    let pre = DOCX_DOCUMENT_HEAD@ + h;
    let d = docx_chapters(chapters);
    assert(doc =~= pre + d + DOCX_DOCUMENT_TAIL@);
    assert(doc.subrange(DOCX_DOCUMENT_HEAD@.len() as int, pre.len() as int) =~= h);
    let n: int = pre.len() as int;
    assert forall|i: int| 0 <= i < chapters.len() implies occurs_at(
        doc,
        DOCX_HEADING_OPEN@ + escape_text((#[trigger] chapters[i]).0) + DOCX_PARAGRAPH_CLOSE@ + docx_lines(lines(chapters[i].1)),
        docx_chapter_start(title, chapters, i),
    ) by {
        let p = DOCX_HEADING_OPEN@ + escape_text(chapters[i].0) + DOCX_PARAGRAPH_CLOSE@ + docx_lines(lines(chapters[i].1));
        let o: int = docx_chapters_len(chapters, i) as int;
        assert(occurs_at(d, p, o));
        assert(doc.subrange(n + o, n + o + p.len()) =~= d.subrange(o, o + p.len()));
    }
}

/// The paragraphs of a chapter's text.
fn docx_text(content: &str) -> (r: String)
    ensures
        r@ == docx_lines(lines(content@)),
{
    let ls = lines_exec(content);
    let ghost lv = ls.deep_view();
    let mut out = String::new();
    let mut i: usize = 0;
    assert(lv.subrange(0, 0) =~= Seq::<Seq<char>>::empty());
    while i < ls.len()
        invariant
            lv == ls.deep_view(),
            lv == lines(content@),
            i <= lv.len(),
            out@ == docx_lines(lv.subrange(0, i as int)),
        decreases lv.len() - i,
    {
        assert(lv.subrange(0, i + 1).drop_last() =~= lv.subrange(0, i as int));
        assert(lv[i as int] == ls@[i as int]@);
        if has_content(ls[i].as_str()) {
            let p = docx_paragraph(ls[i].as_str(), false);
            push_str(&mut out, p.as_str());
        } else {
            push_str(&mut out, DOCX_EMPTY_PARAGRAPH);
        }
        i += 1;
    }
    assert(lv.subrange(0, lv.len() as int) =~= lv);
    out
}

/// The document part of a Word export.
pub fn docx_document(title: &str, chapters: &Vec<(String, String)>) -> (r: String)
    ensures
        r@ == spec_docx_document(title@, pairs_view(chapters@)),
{
    let ghost cv = pairs_view(chapters@);
    let mut out = DOCX_DOCUMENT_HEAD.to_owned();
    let h = docx_paragraph(title, true);
    push_str(&mut out, h.as_str());
    let ghost head = out@;
    let mut i: usize = 0;
    assert(cv.subrange(0, 0) =~= Seq::<(Seq<char>, Seq<char>)>::empty());
    assert(out@ =~= head + docx_chapters(cv.subrange(0, 0)));
    while i < chapters.len()
        invariant
            cv == pairs_view(chapters@),
            i <= chapters@.len(),
            out@ == head + docx_chapters(cv.subrange(0, i as int)),
        decreases chapters@.len() - i,
    {
        assert(cv.subrange(0, i + 1).drop_last() =~= cv.subrange(0, i as int));
        let p = docx_paragraph(chapters[i].0.as_str(), true);
        push_str(&mut out, p.as_str());
        let body = docx_text(chapters[i].1.as_str());
        push_str(&mut out, body.as_str());
        i += 1;
        assert(out@ =~= head + docx_chapters(cv.subrange(0, i as int)));
    }
    assert(cv.subrange(0, chapters@.len() as int) =~= cv);
    push_str(&mut out, DOCX_DOCUMENT_TAIL);
    out
}

/// The entries of a Word package, in the order they are written: each path with
/// its text, or with none for a directory.
pub open spec fn spec_docx_package(title: Seq<char>, chapters: Seq<(Seq<char>, Seq<char>)>) -> Seq<(Seq<char>, Option<Seq<char>>)> {
    seq![
        ("[Content_Types].xml"@, Some(DOCX_CONTENT_TYPES@)),
        ("_rels/"@, None),
        ("_rels/.rels"@, Some(DOCX_RELS@)),
        ("word/"@, None),
        ("word/styles.xml"@, Some(DOCX_STYLES@)),
        ("word/document.xml"@, Some(spec_docx_document(title, chapters))),
    ]
}

/// The view of package entries.
pub open spec fn entries_view(v: Seq<(String, Option<String>)>) -> Seq<(Seq<char>, Option<Seq<char>>)> {
    v.map_values(|e: (String, Option<String>)| (e.0@, match e.1 {
        Some(t) => Some(t@),
        None => None,
    }))
}

/// The entries of the Word export of a book.
pub fn docx_package(title: &str, chapters: &Vec<(String, String)>) -> (r: Vec<(String, Option<String>)>)
    ensures
        entries_view(r@) == spec_docx_package(title@, pairs_view(chapters@)),
{
    let mut r: Vec<(String, Option<String>)> = Vec::new();
    r.push(("[Content_Types].xml".to_owned(), Some(DOCX_CONTENT_TYPES.to_owned())));
    r.push(("_rels/".to_owned(), None));
    r.push(("_rels/.rels".to_owned(), Some(DOCX_RELS.to_owned())));
    r.push(("word/".to_owned(), None));
    r.push(("word/styles.xml".to_owned(), Some(DOCX_STYLES.to_owned())));
    r.push(("word/document.xml".to_owned(), Some(docx_document(title, chapters))));
    assert(entries_view(r@) =~= spec_docx_package(title@, pairs_view(chapters@)));
    r
}

// ---------------------------------------------------------------------------
// The shelf
// ---------------------------------------------------------------------------

/// A book is listed for a search `query`: the query is empty, or, both in lower
/// case, the book's title and report (a space between them) contain it.
pub open spec fn spec_book_matches(query: Seq<char>, title: Seq<char>, report: Seq<char>) -> bool {
    let q = unicode_lowercase(query);
    q.len() == 0 || contains(unicode_lowercase(title + " "@ + report), q)
}

/// Whether a book with this title and report text is listed for a search.
pub fn book_matches(query: &str, title: &str, report: &str) -> (b: bool)
    ensures
        b == spec_book_matches(query@, title@, report@),
{
    let q = to_lowercase(query);
    if q.as_str().is_empty() {
        return true;
    }
    let mut all = title.to_owned();
    push_str(&mut all, " ");
    push_str(&mut all, report);
    let lower = to_lowercase(all.as_str());
    contains_exec(&chars_of(lower.as_str()), &chars_of(q.as_str()))
}

/// Where a book goes among books sorted newest first: before the first book
/// updated earlier.
pub open spec fn newest_slot(sorted: Seq<(usize, Seq<char>)>, x: (usize, Seq<char>), i: int) -> int
    decreases sorted.len() - i,
{
    if i < 0 || i >= sorted.len() {
        sorted.len() as int
    } else if text_lt(sorted[i].1, x.1) {
        i
    } else {
        newest_slot(sorted, x, i + 1)
    }
}

/// Books, as (position, update time), sorted newest first; books updated at the
/// same time keep their order.
pub open spec fn by_newest(s: Seq<(usize, Seq<char>)>) -> Seq<(usize, Seq<char>)>
    decreases s.len(),
{
    if s.len() == 0 {
        Seq::empty()
    } else {
        let sorted = by_newest(s.drop_last());
        sorted.insert(newest_slot(sorted, s.last(), 0), s.last())
    }
}

/// The books with their positions.
pub open spec fn indexed(v: Seq<Seq<char>>) -> Seq<(usize, Seq<char>)> {
    Seq::new(v.len(), |i: int| (i as usize, v[i]))
}

proof fn lemma_newest_slot(sorted: Seq<(usize, Seq<char>)>, x: (usize, Seq<char>), i: int)
    requires
        0 <= i <= sorted.len(),
    ensures
        i <= newest_slot(sorted, x, i) <= sorted.len(),
        forall|k: int| i <= k < newest_slot(sorted, x, i) ==> !text_lt(#[trigger] sorted[k].1, x.1),
        newest_slot(sorted, x, i) < sorted.len() ==> text_lt(sorted[newest_slot(sorted, x, i)].1, x.1),
    decreases sorted.len() - i,
{
    if i < sorted.len() && !text_lt(sorted[i].1, x.1) {
        lemma_newest_slot(sorted, x, i + 1);
    }
}

/// Sorting newest first keeps every book and puts no book before a newer one.
pub proof fn lemma_by_newest(s: Seq<(usize, Seq<char>)>)
    ensures
        by_newest(s).len() == s.len(),
        by_newest(s).to_multiset() == s.to_multiset(),
        forall|i: int, j: int| 0 <= i < j < s.len() ==> !text_lt(#[trigger] by_newest(s)[i].1, #[trigger] by_newest(s)[j].1),
    decreases s.len(),
{
    broadcast use vstd::seq_lib::to_multiset_insert;
    if s.len() == 0 {
        assert(s =~= Seq::<(usize, Seq<char>)>::empty());
    } else {
        let init = s.drop_last();
        let x = s.last();
        lemma_by_newest(init);
        let sorted = by_newest(init);
        lemma_newest_slot(sorted, x, 0);
        let p = newest_slot(sorted, x, 0);
        let r = sorted.insert(p, x);
        assert(r == by_newest(s));
        assert forall|i: int, j: int| 0 <= i < j < r.len() implies !text_lt(r[i].1, r[j].1) by {
            if j < p {
                assert(r[i] == sorted[i] && r[j] == sorted[j]);
            } else if j == p {
                assert(r[i] == sorted[i]);
            } else if i < p {
                assert(r[i] == sorted[i] && r[j] == sorted[j - 1]);
            } else if i == p {
                assert(r[j] == sorted[j - 1]);
                if text_lt(x.1, sorted[j - 1].1) {
                    lemma_text_lt_trans(sorted[p].1, x.1, sorted[j - 1].1);
                    if j - 1 == p {
                        lemma_text_lt_irrefl(sorted[p].1);
                    }
                }
            } else {
                assert(r[i] == sorted[i - 1] && r[j] == sorted[j - 1]);
            }
        }
        assert(s =~= init.push(x));
        vstd::seq_lib::to_multiset_build(init, x);
    }
}

/// The positions of books in the order they are listed: newest update first.
pub fn newest_first(updated_at: &Vec<String>) -> (r: Vec<usize>)
    ensures
        r@.len() == updated_at@.len(),
        forall|k: int| 0 <= k < r@.len() ==> #[trigger] r@[k] == by_newest(indexed(updated_at.deep_view()))[k].0,
{
    let ghost vs = indexed(updated_at.deep_view());
    let mut sorted: Vec<usize> = Vec::new();
    let ghost mut sv: Seq<(usize, Seq<char>)> = Seq::empty();
    let mut i: usize = 0;
    assert(vs.subrange(0, 0) =~= Seq::<(usize, Seq<char>)>::empty());
    while i < updated_at.len()
        invariant
            vs == indexed(updated_at.deep_view()),
            i <= updated_at@.len(),
            sv == by_newest(vs.subrange(0, i as int)),
            sorted@.len() == sv.len(),
            forall|k: int| 0 <= k < sorted@.len() ==> #[trigger] sorted@[k] == sv[k].0,
            forall|k: int| 0 <= k < sv.len() ==> (#[trigger] sv[k]).0 < updated_at@.len()
                && sv[k].1 == updated_at.deep_view()[sv[k].0 as int],
        decreases updated_at@.len() - i,
    {
        let ghost x = vs[i as int];
        assert(vs.subrange(0, i + 1).drop_last() =~= vs.subrange(0, i as int));
        assert(vs.subrange(0, i + 1).last() == x);
        assert(x == (i, updated_at@[i as int]@));
        let mut p: usize = 0;
        while p < sorted.len() && !text_lt_exec(updated_at[sorted[p]].as_str(), updated_at[i].as_str())
            invariant
                i < updated_at@.len(),
                x == (i, updated_at@[i as int]@),
                sorted@.len() == sv.len(),
                forall|k: int| 0 <= k < sorted@.len() ==> #[trigger] sorted@[k] == sv[k].0,
                forall|k: int| 0 <= k < sv.len() ==> (#[trigger] sv[k]).0 < updated_at@.len()
                    && sv[k].1 == updated_at.deep_view()[sv[k].0 as int],
                p <= sorted@.len(),
                newest_slot(sv, x, 0) == newest_slot(sv, x, p as int),
            decreases sorted@.len() - p,
        {
            assert(updated_at.deep_view()[sv[p as int].0 as int] == updated_at@[sorted@[p as int] as int]@);
            p += 1;
        }
        proof {
            if p < sorted@.len() {
                assert(updated_at.deep_view()[sv[p as int].0 as int] == updated_at@[sorted@[p as int] as int]@);
            }
        }
        sorted.insert(p, i);
        proof {
            sv = sv.insert(p as int, x);
        }
        i += 1;
    }
    assert(vs.subrange(0, updated_at@.len() as int) =~= vs);
    proof {
        lemma_by_newest(vs);
    }
    sorted
}

/// A book imported through a Legado source records its origin as the source's
/// name and the book's address, separated by ` · `; the two are found at the first
/// separator.
pub open spec fn spec_legado_origin(source_uri: Seq<char>) -> Result<(Seq<char>, Seq<char>), Seq<char>> {
    match find(source_uri, " · "@) {
        Some(i) => Ok((source_uri.subrange(0, i), source_uri.subrange(i + 3, source_uri.len() as int))),
        None => Err("这本书没有可用于补全的 Legado 原书源记录"@),
    }
}

/// The source's name and the book's address of a book imported through a Legado
/// source.
pub fn legado_origin(source_uri: &str) -> (r: Result<(String, String), String>)
    ensures
        pair_result_view(r) == spec_legado_origin(source_uri@),
{
    proof {
        reveal_strlit(" · ");
    }
    let v = chars_of(source_uri);
    let sep = chars_of(" · ");
    match find_from_exec(&v, &sep, 0) {
        Some(i) => Ok((string_from(&v, 0, i), string_from(&v, i + 3, v.len()))),
        None => Err("这本书没有可用于补全的 Legado 原书源记录".to_owned()),
    }
}

} // verus!
