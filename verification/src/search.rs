//! Searching books across Legado sources: checking the request, building the
//! search URL of a source, reading the results of one source, and merging
//! the answers of all sources.

use vstd::prelude::*;
use crate::html::{eval_html, select_html, spec_eval_html, spec_select_html};
use crate::json::{body_json, eval_json, json_select, parse_json, spec_eval_json, spec_json_select, JsonDoc, JsonTree};
use crate::outside::{html_root, html_root_of, parse_html};
use crate::source::{
    source_item, source_key, spec_import_compatible, spec_reason, spec_search_compatible, spec_source_key,
    BookSource,
};
use crate::text::{chars_of, contains, contains_exec, first_n, push_str, trim, trim_exec, trim_str};
use crate::web::{absolute, is_json_body, json_body, render_url, spec_absolute, spec_render_url, text_result_view};

verus! {

/// One book found by a search.
pub struct SearchResult {
    pub source_key: String,
    pub source_name: String,
    pub title: String,
    pub author: String,
    pub intro: String,
    pub cover_url: String,
    pub book_url: String,
    pub import_compatible: bool,
}

/// The mathematical value of a search result.
pub struct SearchView {
    pub source_key: Seq<char>,
    pub source_name: Seq<char>,
    pub title: Seq<char>,
    pub author: Seq<char>,
    pub intro: Seq<char>,
    pub cover_url: Seq<char>,
    pub book_url: Seq<char>,
    pub import_compatible: bool,
}

impl View for SearchResult {
    type V = SearchView;

    open spec fn view(&self) -> SearchView {
        SearchView {
            source_key: self.source_key@,
            source_name: self.source_name@,
            title: self.title@,
            author: self.author@,
            intro: self.intro@,
            cover_url: self.cover_url@,
            book_url: self.book_url@,
            import_compatible: self.import_compatible,
        }
    }
}

impl SearchResult {
    /// A copy of the result.
    pub fn duplicate(&self) -> (r: SearchResult)
        ensures
            r@ == self@,
    {
        SearchResult {
            source_key: self.source_key.clone(),
            source_name: self.source_name.clone(),
            title: self.title.clone(),
            author: self.author.clone(),
            intro: self.intro.clone(),
            cover_url: self.cover_url.clone(),
            book_url: self.book_url.clone(),
            import_compatible: self.import_compatible,
        }
    }
}

/// The answer to a search over several sources.
pub struct SearchResponse {
    pub results: Vec<SearchResult>,
    pub searched_sources: usize,
    pub failed_sources: Vec<String>,
}

/// The views of search results.
pub open spec fn result_views(v: Seq<SearchResult>) -> Seq<SearchView> {
    v.map_values(|r: SearchResult| r@)
}

// ---------------------------------------------------------------------------
// Request
// ---------------------------------------------------------------------------

/// A search request is refused for an empty query, no source, or more than 60 sources.
pub open spec fn spec_check_search(query: Seq<char>, n_sources: nat) -> Result<(), Seq<char>> {
    if trim(query).len() == 0 {
        Err("请输入小说名"@)
    } else if n_sources == 0 {
        Err("至少选择一个书源"@)
    } else if n_sources > 60 {
        Err("一次最多搜索 60 个书源"@)
    } else {
        Ok(())
    }
}

/// Checks a search request.
pub fn check_search(query: &str, source_keys: &Vec<String>) -> (r: Result<(), String>)
    ensures
        match r {
            Ok(()) => spec_check_search(query@, source_keys@.len()) == Ok::<(), Seq<char>>(()),
            Err(e) => spec_check_search(query@, source_keys@.len()) == Err::<(), Seq<char>>(e@),
        },
        r is Ok ==> trim(query@).len() > 0 && 1 <= source_keys@.len() <= 60,
{
    let q = trim_exec(&chars_of(query));
    if q.len() == 0 {
        Err("请输入小说名".to_owned())
    } else if source_keys.len() == 0 {
        Err("至少选择一个书源".to_owned())
    } else if source_keys.len() > 60 {
        Err("一次最多搜索 60 个书源".to_owned())
    } else {
        Ok(())
    }
}

/// Among the sources, the positions of those whose key was chosen, keeping the first
/// source of each key, in repository order.
pub open spec fn spec_chosen_sources(sources: Seq<BookSource>, keys: Seq<Seq<char>>, i: int) -> Seq<usize>
    decreases i,
{
    if i <= 0 || i > sources.len() {
        Seq::empty()
    } else {
        let before = spec_chosen_sources(sources, keys, i - 1);
        let k = spec_source_key(sources[i - 1]);
        if keys.contains(k) && !(exists|j: int| 0 <= j < before.len() && spec_source_key(sources[before[j] as int]) == k) {
            before.push((i - 1) as usize)
        } else {
            before
        }
    }
}

/// The sources chosen for a search come in repository order, each with a key that
/// was asked for, no two with the same key, and every asked-for key that a source
/// carries is among them.
pub proof fn lemma_chosen_sources(sources: Seq<BookSource>, keys: Seq<Seq<char>>, i: int)
    requires
        0 <= i <= sources.len(),
        sources.len() <= usize::MAX,
    ensures
        forall|j: int| 0 <= j < spec_chosen_sources(sources, keys, i).len()
            ==> #[trigger] spec_chosen_sources(sources, keys, i)[j] < i,
        forall|j: int, k: int| 0 <= j < k < spec_chosen_sources(sources, keys, i).len()
            ==> #[trigger] spec_chosen_sources(sources, keys, i)[j] < #[trigger] spec_chosen_sources(sources, keys, i)[k],
        forall|j: int| 0 <= j < spec_chosen_sources(sources, keys, i).len()
            ==> keys.contains(spec_source_key(sources[#[trigger] spec_chosen_sources(sources, keys, i)[j] as int])),
        forall|j: int, k: int| 0 <= j < k < spec_chosen_sources(sources, keys, i).len()
            ==> spec_source_key(sources[#[trigger] spec_chosen_sources(sources, keys, i)[j] as int])
                != spec_source_key(sources[#[trigger] spec_chosen_sources(sources, keys, i)[k] as int]),
        forall|t: int| 0 <= t < i && keys.contains(#[trigger] spec_source_key(sources[t])) ==> exists|j: int|
            0 <= j < spec_chosen_sources(sources, keys, i).len()
                && spec_source_key(sources[spec_chosen_sources(sources, keys, i)[j] as int]) == spec_source_key(sources[t]),
    decreases i,
{
    if i > 0 {
        lemma_chosen_sources(sources, keys, i - 1);
        let before = spec_chosen_sources(sources, keys, i - 1);
        let r = spec_chosen_sources(sources, keys, i);
        let k = spec_source_key(sources[i - 1]);
        if keys.contains(k) && !(exists|j: int| 0 <= j < before.len() && spec_source_key(sources[before[j] as int]) == k) {
            assert(r == before.push((i - 1) as usize));
            assert forall|j: int| 0 <= j < r.len() implies #[trigger] r[j] < i by {
                if j < before.len() {
                    assert(r[j] == before[j]);
                }
            }
            assert forall|t: int| 0 <= t < i && keys.contains(#[trigger] spec_source_key(sources[t])) implies exists|j: int|
                0 <= j < r.len() && spec_source_key(sources[r[j] as int]) == spec_source_key(sources[t]) by {
                if t < i - 1 {
                    let j = choose|j: int| 0 <= j < before.len() && spec_source_key(sources[before[j] as int]) == spec_source_key(sources[t]);
                    assert(r[j] == before[j]);
                } else {
                    assert(r[before.len() as int] == (i - 1) as usize);
                    assert(spec_source_key(sources[r[before.len() as int] as int]) == spec_source_key(sources[t]));
                }
            }
            assert forall|j: int, m: int| 0 <= j < m < r.len() implies spec_source_key(sources[#[trigger] r[j] as int])
                != spec_source_key(sources[#[trigger] r[m] as int]) by {
                if m < before.len() {
                    assert(r[j] == before[j] && r[m] == before[m]);
                } else {
                    assert(r[j] == before[j]);
                }
            }
        } else {
            assert(r == before);
            if keys.contains(k) {
                assert forall|t: int| 0 <= t < i && keys.contains(#[trigger] spec_source_key(sources[t])) implies exists|j: int|
                    0 <= j < r.len() && spec_source_key(sources[r[j] as int]) == spec_source_key(sources[t]) by {
                    if t == i - 1 {
                        let j = choose|j: int| 0 <= j < before.len() && spec_source_key(sources[before[j] as int]) == k;
                    }
                }
            }
        }
    }
}

/// The positions of the chosen sources to search.
pub fn chosen_sources(sources: &Vec<BookSource>, source_keys: &Vec<String>) -> (r: Vec<usize>)
    ensures
        r@ == spec_chosen_sources(sources@, source_keys.deep_view(), sources@.len() as int),
{
    let mut r: Vec<usize> = Vec::new();
    let mut keys: Vec<String> = Vec::new();
    let mut i: usize = 0;
    while i < sources.len()
        invariant
            i <= sources.len(),
            r@ == spec_chosen_sources(sources@, source_keys.deep_view(), i as int),
            keys@.len() == r@.len(),
            forall|j: int| 0 <= j < r@.len() ==> #[trigger] keys@[j]@ == spec_source_key(sources@[r@[j] as int]),
            forall|j: int| 0 <= j < r@.len() ==> #[trigger] r@[j] < i,
        decreases sources.len() - i,
    {
        let k = source_key(&sources[i]);
        let mut chosen = false;
        let mut a: usize = 0;
        while a < source_keys.len()
            invariant
                a <= source_keys.len(),
                chosen == exists|q: int| 0 <= q < a && source_keys.deep_view()[q] == k@,
            decreases source_keys.len() - a,
        {
            assert(source_keys.deep_view()[a as int] == source_keys@[a as int]@);
            if source_keys[a] == k {
                chosen = true;
            }
            a += 1;
        }
        let mut seen = false;
        let mut b: usize = 0;
        while b < keys.len()
            invariant
                b <= keys@.len(),
                keys@.len() == r@.len(),
                forall|j: int| 0 <= j < r@.len() ==> #[trigger] keys@[j]@ == spec_source_key(sources@[r@[j] as int]),
                seen == exists|q: int| 0 <= q < b && spec_source_key(sources@[r@[q] as int]) == k@,
            decreases keys@.len() - b,
        {
            if keys[b] == k {
                seen = true;
            }
            b += 1;
        }
        proof {
            if chosen {
                let q = choose|q: int| 0 <= q < source_keys@.len() && source_keys.deep_view()[q] == k@;
                assert(source_keys.deep_view()[q] == k@);
            }
            assert(chosen == source_keys.deep_view().contains(k@));
        }
        if chosen && !seen {
            r.push(i);
            keys.push(k);
        }
        i += 1;
    }
    r
}

/// The URL a source searches for `query`, or the reason it cannot search.
pub open spec fn spec_search_url(s: BookSource, query: Seq<char>) -> Result<Seq<char>, Seq<char>> {
    if !spec_search_compatible(s) {
        Err(spec_reason(s))
    } else {
        Ok(spec_absolute(s.url@, spec_render_url(s.search_url@, None, query, 1)))
    }
}

/// The URL a source searches for `query`.
pub fn search_url(s: &BookSource, query: &str) -> (r: Result<String, String>)
    ensures
        text_result_view(r) == spec_search_url(*s, query@),
{
    let item = source_item(s);
    if !item.search_compatible {
        return Err(item.reason);
    }
    let empty = JsonDoc::new();
    let rendered = render_url(s.search_url.as_str(), &empty, None, query, 1);
    Ok(absolute(s.url.as_str(), rendered.as_str()))
}

// ---------------------------------------------------------------------------
// Results of one source
// ---------------------------------------------------------------------------

/// The result a JSON book entry gives, unless its title or URL is empty.
pub open spec fn json_book(doc: JsonTree, book: usize, s: BookSource, url: Seq<char>) -> Option<SearchView> {
    let title = spec_eval_json(doc, book as int, s.search_name@);
    let path = spec_render_url(s.search_book_url@, Some((doc, book as int)), Seq::empty(), 1);
    if title.len() == 0 || path.len() == 0 {
        None
    } else {
        Some(SearchView {
            source_key: spec_source_key(s),
            source_name: s.name@,
            title,
            author: spec_eval_json(doc, book as int, s.search_author@),
            intro: spec_eval_json(doc, book as int, s.search_intro@),
            cover_url: spec_absolute(url, spec_eval_json(doc, book as int, s.search_cover_url@)),
            book_url: spec_absolute(url, path),
            import_compatible: spec_import_compatible(s),
        })
    }
}

/// The results of the JSON book entries, in order.
pub open spec fn json_books(doc: JsonTree, books: Seq<usize>, s: BookSource, url: Seq<char>) -> Seq<SearchView>
    decreases books.len(),
{
    if books.len() == 0 {
        Seq::empty()
    } else {
        let r = json_books(doc, books.drop_last(), s, url);
        match json_book(doc, books.last(), s, url) {
            Some(v) => r.push(v),
            None => r,
        }
    }
}

/// The results a source finds in a JSON answer fetched from `url`: the first 20
/// entries of its book list that have a title and a book URL.
pub open spec fn spec_search_json(doc: JsonTree, root: int, s: BookSource, url: Seq<char>) -> Seq<SearchView> {
    json_books(doc, first_n(spec_json_select(doc, root, s.search_book_list@), 20), s, url)
}

/// The results a source finds in a JSON answer fetched from `url`.
pub fn search_json(doc: &JsonDoc, root: usize, s: &BookSource, url: &str) -> (r: Vec<SearchResult>)
    requires
        root < doc.size(),
    ensures
        result_views(r@) == spec_search_json(doc@, root as int, *s, url@),
        r@.len() <= 20,
{
    proof {
        use_type_invariant(doc);
    }
    let item = source_item(s);
    let books = json_select(doc, root, s.search_book_list.as_str());
    let n = if books.len() <= 20 { books.len() } else { 20 };
    let ghost chosen = first_n(books@, 20);
    assert(chosen =~= books@.subrange(0, n as int));
    let mut r: Vec<SearchResult> = Vec::new();
    let mut i: usize = 0;
    assert(result_views(r@) =~= json_books(doc@, chosen.subrange(0, 0), *s, url@));
    while i < n
        invariant
            doc.wf(),
            n <= books@.len(),
            chosen == books@.subrange(0, n as int),
            forall|k: int| 0 <= k < books@.len() ==> #[trigger] books@[k] < doc.size(),
            item@ == crate::source::spec_source_item(*s),
            i <= n,
            n <= 20,
            r@.len() <= i,
            result_views(r@) == json_books(doc@, chosen.subrange(0, i as int), *s, url@),
        decreases n - i,
    {
        let book = books[i];
        assert(chosen.subrange(0, i + 1).drop_last() =~= chosen.subrange(0, i as int));
        assert(chosen.subrange(0, i + 1).last() == book);
        let title = eval_json(doc, book, s.search_name.as_str());
        proof {
            reveal_strlit("");
        }
        let path = render_url(s.search_book_url.as_str(), doc, Some(book), "", 1);
        assert(""@ =~= Seq::<char>::empty());
        if !title.as_str().is_empty() && !path.as_str().is_empty() {
            let cover = eval_json(doc, book, s.search_cover_url.as_str());
            let res = SearchResult {
                source_key: item.key.clone(),
                source_name: item.name.clone(),
                title,
                author: eval_json(doc, book, s.search_author.as_str()),
                intro: eval_json(doc, book, s.search_intro.as_str()),
                cover_url: absolute(url, cover.as_str()),
                book_url: absolute(url, path.as_str()),
                import_compatible: item.import_compatible,
            };
            let ghost before = result_views(r@);
            let ghost rv = res@;
            r.push(res);
            assert(result_views(r@) =~= before.push(rv));
        }
        i += 1;
    }
    assert(chosen.subrange(0, n as int) =~= chosen);
    r
}

/// The result an HTML book element gives, unless its title or URL is empty.
pub open spec fn html_book(page: Seq<char>, book: usize, s: BookSource, url: Seq<char>) -> Option<SearchView> {
    let title = spec_eval_html(page, book, s.search_name@);
    let path = spec_eval_html(page, book, s.search_book_url@);
    if title.len() == 0 || path.len() == 0 {
        None
    } else {
        Some(SearchView {
            source_key: spec_source_key(s),
            source_name: s.name@,
            title,
            author: spec_eval_html(page, book, s.search_author@),
            intro: spec_eval_html(page, book, s.search_intro@),
            cover_url: spec_absolute(url, spec_eval_html(page, book, s.search_cover_url@)),
            book_url: spec_absolute(url, path),
            import_compatible: spec_import_compatible(s),
        })
    }
}

/// The results of the HTML book elements, in order.
pub open spec fn html_books(page: Seq<char>, books: Seq<usize>, s: BookSource, url: Seq<char>) -> Seq<SearchView>
    decreases books.len(),
{
    if books.len() == 0 {
        Seq::empty()
    } else {
        let r = html_books(page, books.drop_last(), s, url);
        match html_book(page, books.last(), s, url) {
            Some(v) => r.push(v),
            None => r,
        }
    }
}

/// The results a source finds in an HTML page fetched from `url`: the first 20
/// elements of its book list that have a title and a book URL.
pub open spec fn spec_search_html(body: Seq<char>, s: BookSource, url: Seq<char>) -> Seq<SearchView> {
    html_books(body, first_n(spec_select_html(body, seq![html_root_of(body)], s.search_book_list@), 20), s, url)
}

/// Each result of `html_books` comes from one of the book elements: its title,
/// author, intro, cover and book URL are the values of the source's rules on that
/// element, each rule on its own.
proof fn lemma_html_books_from(page: Seq<char>, books: Seq<usize>, s: BookSource, url: Seq<char>)
    ensures
        html_books(page, books, s, url).len() <= books.len(),
        forall|j: int| 0 <= j < html_books(page, books, s, url).len() ==> exists|k: int|
            0 <= k < books.len() && #[trigger] html_books(page, books, s, url)[j] == (SearchView {
                source_key: spec_source_key(s),
                source_name: s.name@,
                title: spec_eval_html(page, books[k], s.search_name@),
                author: spec_eval_html(page, books[k], s.search_author@),
                intro: spec_eval_html(page, books[k], s.search_intro@),
                cover_url: spec_absolute(url, spec_eval_html(page, books[k], s.search_cover_url@)),
                book_url: spec_absolute(url, spec_eval_html(page, books[k], s.search_book_url@)),
                import_compatible: spec_import_compatible(s),
            }) && spec_eval_html(page, books[k], s.search_name@).len() > 0
                && spec_eval_html(page, books[k], s.search_book_url@).len() > 0,
    decreases books.len(),
{
    if books.len() > 0 {
        let front = books.drop_last();
        lemma_html_books_from(page, front, s, url);
        let r = html_books(page, front, s, url);
        let all = html_books(page, books, s, url);
        assert forall|j: int| 0 <= j < all.len() implies exists|k: int|
            0 <= k < books.len() && #[trigger] all[j] == (SearchView {
                source_key: spec_source_key(s),
                source_name: s.name@,
                title: spec_eval_html(page, books[k], s.search_name@),
                author: spec_eval_html(page, books[k], s.search_author@),
                intro: spec_eval_html(page, books[k], s.search_intro@),
                cover_url: spec_absolute(url, spec_eval_html(page, books[k], s.search_cover_url@)),
                book_url: spec_absolute(url, spec_eval_html(page, books[k], s.search_book_url@)),
                import_compatible: spec_import_compatible(s),
            }) && spec_eval_html(page, books[k], s.search_name@).len() > 0
                && spec_eval_html(page, books[k], s.search_book_url@).len() > 0 by {
            if j < r.len() {
                assert(all[j] == r[j]);
                let k = choose|k: int|
                    0 <= k < front.len() && #[trigger] r[j] == (SearchView {
                        source_key: spec_source_key(s),
                        source_name: s.name@,
                        title: spec_eval_html(page, front[k], s.search_name@),
                        author: spec_eval_html(page, front[k], s.search_author@),
                        intro: spec_eval_html(page, front[k], s.search_intro@),
                        cover_url: spec_absolute(url, spec_eval_html(page, front[k], s.search_cover_url@)),
                        book_url: spec_absolute(url, spec_eval_html(page, front[k], s.search_book_url@)),
                        import_compatible: spec_import_compatible(s),
                    }) && spec_eval_html(page, front[k], s.search_name@).len() > 0
                        && spec_eval_html(page, front[k], s.search_book_url@).len() > 0;
                assert(front[k] == books[k]);
            } else {
                assert(books.last() == books[books.len() - 1]);
            }
        }
    }
}

/// Every result a source finds in an HTML page is one of the first 20 elements its
/// book list rule selects from the page's root, read by the source's own rules: the
/// title (not empty) by the name rule, the author by the author rule, the intro by
/// the intro rule, and the cover and book URLs (not empty) by their rules, made
/// absolute against the page's URL.
pub proof fn lemma_html_results(body: Seq<char>, s: BookSource, url: Seq<char>)
    ensures
        spec_search_html(body, s, url).len() <= 20,
        forall|j: int| 0 <= j < spec_search_html(body, s, url).len() ==> exists|k: int|
            0 <= k < 20 && 0 <= k < spec_select_html(body, seq![html_root_of(body)], s.search_book_list@).len() && {
                let b = #[trigger] spec_select_html(body, seq![html_root_of(body)], s.search_book_list@)[k];
                let r = #[trigger] spec_search_html(body, s, url)[j];
                &&& r.title == spec_eval_html(body, b, s.search_name@)
                &&& r.title.len() > 0
                &&& spec_eval_html(body, b, s.search_book_url@).len() > 0
                &&& r.author == spec_eval_html(body, b, s.search_author@)
                &&& r.intro == spec_eval_html(body, b, s.search_intro@)
                &&& r.cover_url == spec_absolute(url, spec_eval_html(body, b, s.search_cover_url@))
                &&& r.book_url == spec_absolute(url, spec_eval_html(body, b, s.search_book_url@))
                &&& r.source_key == spec_source_key(s)
            },
{
    let all = spec_select_html(body, seq![html_root_of(body)], s.search_book_list@);
    let books = first_n(all, 20);
    lemma_html_books_from(body, books, s, url);
    let res = spec_search_html(body, s, url);
    assert forall|j: int| 0 <= j < res.len() implies exists|k: int|
        0 <= k < 20 && 0 <= k < all.len() && {
            let b = #[trigger] all[k];
            let r = #[trigger] res[j];
            &&& r.title == spec_eval_html(body, b, s.search_name@)
            &&& r.title.len() > 0
            &&& spec_eval_html(body, b, s.search_book_url@).len() > 0
            &&& r.author == spec_eval_html(body, b, s.search_author@)
            &&& r.intro == spec_eval_html(body, b, s.search_intro@)
            &&& r.cover_url == spec_absolute(url, spec_eval_html(body, b, s.search_cover_url@))
            &&& r.book_url == spec_absolute(url, spec_eval_html(body, b, s.search_book_url@))
            &&& r.source_key == spec_source_key(s)
        } by {
        let k = choose|k: int|
            0 <= k < books.len() && #[trigger] res[j] == (SearchView {
                source_key: spec_source_key(s),
                source_name: s.name@,
                title: spec_eval_html(body, books[k], s.search_name@),
                author: spec_eval_html(body, books[k], s.search_author@),
                intro: spec_eval_html(body, books[k], s.search_intro@),
                cover_url: spec_absolute(url, spec_eval_html(body, books[k], s.search_cover_url@)),
                book_url: spec_absolute(url, spec_eval_html(body, books[k], s.search_book_url@)),
                import_compatible: spec_import_compatible(s),
            }) && spec_eval_html(body, books[k], s.search_name@).len() > 0
                && spec_eval_html(body, books[k], s.search_book_url@).len() > 0;
        assert(books[k] == all[k]);
    }
}

/// The intro of each HTML search result does not depend on the source's author
/// rule: two sources that differ in that rule alone find the same books, with the
/// same titles, intros, covers and book URLs.
pub proof fn lemma_html_intro_ignores_author(body: Seq<char>, s1: BookSource, s2: BookSource, url: Seq<char>)
    requires
        (BookSource { search_author: s1.search_author, ..s2 }) == s1,
    ensures
        spec_search_html(body, s1, url).len() == spec_search_html(body, s2, url).len(),
        forall|j: int| 0 <= j < spec_search_html(body, s1, url).len() ==> {
            let a = #[trigger] spec_search_html(body, s1, url)[j];
            let b = spec_search_html(body, s2, url)[j];
            &&& a.intro == b.intro
            &&& a.title == b.title
            &&& a.cover_url == b.cover_url
            &&& a.book_url == b.book_url
        },
{
    let books = first_n(spec_select_html(body, seq![html_root_of(body)], s1.search_book_list@), 20);
    assert(s1.search_book_list == s2.search_book_list);
    lemma_html_books_same_but_author(body, books, s1, s2, url);
}

proof fn lemma_html_books_same_but_author(page: Seq<char>, books: Seq<usize>, s1: BookSource, s2: BookSource, url: Seq<char>)
    requires
        (BookSource { search_author: s1.search_author, ..s2 }) == s1,
    ensures
        html_books(page, books, s1, url).len() == html_books(page, books, s2, url).len(),
        forall|j: int| 0 <= j < html_books(page, books, s1, url).len() ==> {
            let a = #[trigger] html_books(page, books, s1, url)[j];
            let b = html_books(page, books, s2, url)[j];
            &&& a.intro == b.intro
            &&& a.title == b.title
            &&& a.cover_url == b.cover_url
            &&& a.book_url == b.book_url
        },
    decreases books.len(),
{
    if books.len() > 0 {
        lemma_html_books_same_but_author(page, books.drop_last(), s1, s2, url);
        assert(s1.search_name == s2.search_name && s1.search_book_url == s2.search_book_url);
        assert(s1.search_intro == s2.search_intro && s1.search_cover_url == s2.search_cover_url);
    }
}

/// The results a source finds in an HTML page fetched from `url`.
pub fn search_html(body: &str, s: &BookSource, url: &str) -> (r: Vec<SearchResult>)
    ensures
        result_views(r@) == spec_search_html(body@, *s, url@),
        r@.len() <= 20,
{
    let item = source_item(s);
    let page = parse_html(body);
    let mut start: Vec<usize> = Vec::new();
    start.push(html_root(&page));
    assert(start@ =~= seq![html_root_of(body@)]);
    let books = select_html(&page, start, s.search_book_list.as_str());
    let n = if books.len() <= 20 { books.len() } else { 20 };
    let ghost chosen = first_n(books@, 20);
    assert(chosen =~= books@.subrange(0, n as int));
    let mut r: Vec<SearchResult> = Vec::new();
    let mut i: usize = 0;
    assert(result_views(r@) =~= html_books(body@, chosen.subrange(0, 0), *s, url@));
    while i < n
        invariant
            page@ == body@,
            n <= books@.len(),
            chosen == books@.subrange(0, n as int),
            item@ == crate::source::spec_source_item(*s),
            i <= n,
            n <= 20,
            r@.len() <= i,
            result_views(r@) == html_books(body@, chosen.subrange(0, i as int), *s, url@),
        decreases n - i,
    {
        let book = books[i];
        assert(chosen.subrange(0, i + 1).drop_last() =~= chosen.subrange(0, i as int));
        assert(chosen.subrange(0, i + 1).last() == book);
        let title = eval_html(&page, book, s.search_name.as_str());
        let path = eval_html(&page, book, s.search_book_url.as_str());
        if !title.as_str().is_empty() && !path.as_str().is_empty() {
            let cover = eval_html(&page, book, s.search_cover_url.as_str());
            let res = SearchResult {
                source_key: item.key.clone(),
                source_name: item.name.clone(),
                title,
                author: eval_html(&page, book, s.search_author.as_str()),
                intro: eval_html(&page, book, s.search_intro.as_str()),
                cover_url: absolute(url, cover.as_str()),
                book_url: absolute(url, path.as_str()),
                import_compatible: item.import_compatible,
            };
            let ghost before = result_views(r@);
            let ghost rv = res@;
            r.push(res);
            assert(result_views(r@) =~= before.push(rv));
        }
        i += 1;
    }
    assert(chosen.subrange(0, n as int) =~= chosen);
    r
}

/// What a source's answer gives: the results of a JSON body (from the document it
/// was parsed into, or `JSON: ` and the parser's message), else of an HTML page.
pub open spec fn spec_search_body(
    body: Seq<char>,
    json: Result<(JsonTree, int), Seq<char>>,
    s: BookSource,
    url: Seq<char>,
) -> Result<Seq<SearchView>, Seq<char>> {
    if is_json_body(body) {
        match json {
            Ok((doc, root)) => Ok(spec_search_json(doc, root, s, url)),
            Err(e) => Err("JSON: "@ + e),
        }
    } else {
        Ok(spec_search_html(body, s, url))
    }
}

/// The view of the outcome of one source's search.
pub open spec fn outcome_view(r: Result<Vec<SearchResult>, String>) -> Result<Seq<SearchView>, Seq<char>> {
    match r {
        Ok(v) => Ok(result_views(v@)),
        Err(e) => Err(e@),
    }
}

/// The view of a JSON parse of a body: the document and its root, or the message.
pub open spec fn parsed_view(json: Result<(JsonDoc, usize), String>) -> Result<(JsonTree, int), Seq<char>> {
    match json {
        Ok((doc, root)) => Ok((doc@, root as int)),
        Err(e) => Err(e@),
    }
}

/// The results a source finds in the body of its search answer, fetched from `url`;
/// `json` is that body parsed as JSON.
pub fn search_results(
    body: &str,
    json: &Result<(JsonDoc, usize), String>,
    s: &BookSource,
    url: &str,
) -> (r: Result<Vec<SearchResult>, String>)
    requires
        json matches Ok((doc, root)) ==> root < doc.size(),
    ensures
        outcome_view(r) == spec_search_body(body@, parsed_view(*json), *s, url@),
{
    if json_body(body) {
        match json {
            Ok((doc, root)) => Ok(search_json(doc, *root, s, url)),
            Err(e) => {
                let mut m = "JSON: ".to_owned();
                push_str(&mut m, e.as_str());
                Err(m)
            },
        }
    } else {
        Ok(search_html(body, s, url))
    }
}

/// The results a source finds in the text of its search answer, fetched from `url`:
/// the body is parsed as JSON here.
pub fn search_answer(body: &str, s: &BookSource, url: &str) -> (r: Result<Vec<SearchResult>, String>)
    ensures
        outcome_view(r) == spec_search_body(body@, body_json(body@), *s, url@),
{
    let json = parse_json(body);
    search_results(body, &json, s, url)
}

// ---------------------------------------------------------------------------
// Merging the answers
// ---------------------------------------------------------------------------

/// The answer of one source: its name and its results or error.
pub struct SourceAnswer {
    pub name: String,
    pub outcome: Result<Vec<SearchResult>, String>,
}

/// The results of the answers that succeeded, in order.
pub open spec fn answered_results(a: Seq<SourceAnswer>) -> Seq<SearchView>
    decreases a.len(),
{
    if a.len() == 0 {
        Seq::empty()
    } else {
        answered_results(a.drop_last()) + match a.last().outcome {
            Ok(v) => result_views(v@),
            Err(_) => Seq::empty(),
        }
    }
}

/// The messages of the answers that failed: the source's name, `：`, the error.
pub open spec fn failed_messages(a: Seq<SourceAnswer>) -> Seq<Seq<char>>
    decreases a.len(),
{
    if a.len() == 0 {
        Seq::empty()
    } else {
        let rest = failed_messages(a.drop_last());
        match a.last().outcome {
            Ok(_) => rest,
            Err(e) => rest.push(a.last().name@ + "："@ + e@),
        }
    }
}

/// The rank of a result: titles containing the query first, then importable ones.
pub open spec fn result_class(r: SearchView, query: Seq<char>) -> int {
    (if contains(r.title, trim(query)) { 0int } else { 2int }) + (if r.import_compatible { 0int } else { 1int })
}

/// The results of rank `c`, in order.
pub open spec fn of_class(v: Seq<SearchView>, query: Seq<char>, c: int) -> Seq<SearchView> {
    v.filter(|r: SearchView| result_class(r, query) == c)
}

/// The stable sort of results by rank.
pub open spec fn by_class(v: Seq<SearchView>, query: Seq<char>) -> Seq<SearchView> {
    of_class(v, query, 0) + of_class(v, query, 1) + of_class(v, query, 2) + of_class(v, query, 3)
}

/// Two results name the same book (same title, author and URL).
pub open spec fn same_book(a: SearchView, b: SearchView) -> bool {
    a.title == b.title && a.author == b.author && a.book_url == b.book_url
}

/// The results without those that repeat the book of the result kept just before.
pub open spec fn dedup_runs(v: Seq<SearchView>) -> Seq<SearchView>
    decreases v.len(),
{
    if v.len() == 0 {
        Seq::empty()
    } else {
        let r = dedup_runs(v.drop_last());
        if r.len() > 0 && same_book(r.last(), v.last()) {
            r
        } else {
            r.push(v.last())
        }
    }
}

/// Results come in rank order: titles containing the query first, importable ones
/// first within that.
pub open spec fn class_sorted(v: Seq<SearchView>, query: Seq<char>) -> bool {
    forall|i: int, j: int| 0 <= i < j < v.len() ==> result_class(#[trigger] v[i], query) <= result_class(#[trigger] v[j], query)
}

/// No result repeats the book of the result just before it.
pub open spec fn no_adjacent_repeats(v: Seq<SearchView>) -> bool {
    forall|i: int| 0 <= i < v.len() - 1 ==> !same_book(#[trigger] v[i], v[i + 1])
}

proof fn lemma_of_class(v: Seq<SearchView>, query: Seq<char>, c: int)
    ensures
        forall|i: int| 0 <= i < of_class(v, query, c).len() ==> result_class(#[trigger] of_class(v, query, c)[i], query) == c,
{
    assert forall|i: int| 0 <= i < of_class(v, query, c).len() implies result_class(#[trigger] of_class(v, query, c)[i], query) == c by {
        v.lemma_filter_pred(|r: SearchView| result_class(r, query) == c, i);
    }
}

proof fn lemma_concat_sorted(a: Seq<SearchView>, b: Seq<SearchView>, query: Seq<char>, k: int)
    requires
        class_sorted(a, query),
        class_sorted(b, query),
        forall|i: int| 0 <= i < a.len() ==> result_class(#[trigger] a[i], query) <= k,
        forall|j: int| 0 <= j < b.len() ==> result_class(#[trigger] b[j], query) >= k,
    ensures
        class_sorted(a + b, query),
        forall|i: int| 0 <= i < (a + b).len() ==> result_class(#[trigger] (a + b)[i], query) <= k
            || i >= a.len(),
{
    let ab = a + b;
    assert forall|i: int, j: int| 0 <= i < j < ab.len() implies result_class(#[trigger] ab[i], query) <= result_class(#[trigger] ab[j], query) by {
        if j < a.len() {
            assert(ab[i] == a[i] && ab[j] == a[j]);
        } else if i >= a.len() {
            assert(ab[i] == b[i - a.len()] && ab[j] == b[j - a.len()]);
        } else {
            assert(ab[i] == a[i] && ab[j] == b[j - a.len()]);
        }
    }
}

proof fn lemma_constant_sorted(v: Seq<SearchView>, query: Seq<char>, c: int)
    requires
        forall|i: int| 0 <= i < v.len() ==> result_class(#[trigger] v[i], query) == c,
    ensures
        class_sorted(v, query),
{
}

/// The ranking puts the results in rank order.
proof fn lemma_by_class_sorted(v: Seq<SearchView>, query: Seq<char>)
    ensures
        class_sorted(by_class(v, query), query),
{
    let a0 = of_class(v, query, 0);
    let a1 = of_class(v, query, 1);
    let a2 = of_class(v, query, 2);
    let a3 = of_class(v, query, 3);
    lemma_of_class(v, query, 0);
    lemma_of_class(v, query, 1);
    lemma_of_class(v, query, 2);
    lemma_of_class(v, query, 3);
    lemma_constant_sorted(a0, query, 0);
    lemma_constant_sorted(a1, query, 1);
    lemma_constant_sorted(a2, query, 2);
    lemma_constant_sorted(a3, query, 3);
    lemma_concat_sorted(a0, a1, query, 1);
    let b1 = a0 + a1;
    assert forall|i: int| 0 <= i < b1.len() implies result_class(#[trigger] b1[i], query) <= 2 by {
        if i < a0.len() {
            assert(b1[i] == a0[i]);
        } else {
            assert(b1[i] == a1[i - a0.len()]);
        }
    }
    lemma_concat_sorted(b1, a2, query, 2);
    let b2 = b1 + a2;
    assert forall|i: int| 0 <= i < b2.len() implies result_class(#[trigger] b2[i], query) <= 3 by {
        if i < b1.len() {
            assert(b2[i] == b1[i]);
        } else {
            assert(b2[i] == a2[i - b1.len()]);
        }
    }
    lemma_concat_sorted(b2, a3, query, 3);
}

proof fn lemma_dedup_runs_from(v: Seq<SearchView>)
    ensures
        forall|i: int| 0 <= i < dedup_runs(v).len() ==> v.contains(#[trigger] dedup_runs(v)[i]),
        no_adjacent_repeats(dedup_runs(v)),
    decreases v.len(),
{
    if v.len() > 0 {
        let init = v.drop_last();
        lemma_dedup_runs_from(init);
        let r = dedup_runs(init);
        assert forall|i: int| 0 <= i < dedup_runs(v).len() implies v.contains(#[trigger] dedup_runs(v)[i]) by {
            if i < r.len() {
                assert(dedup_runs(v)[i] == r[i]);
                let k = choose|k: int| 0 <= k < init.len() && init[k] == r[i];
                assert(v[k] == init[k]);
            } else {
                assert(dedup_runs(v)[i] == v[v.len() - 1]);
            }
        }
    }
}

proof fn lemma_dedup_runs_sorted(v: Seq<SearchView>, query: Seq<char>)
    requires
        class_sorted(v, query),
    ensures
        class_sorted(dedup_runs(v), query),
    decreases v.len(),
{
    if v.len() > 0 {
        let init = v.drop_last();
        assert forall|i: int, j: int| 0 <= i < j < init.len() implies result_class(#[trigger] init[i], query) <= result_class(#[trigger] init[j], query) by {
            assert(init[i] == v[i] && init[j] == v[j]);
        }
        lemma_dedup_runs_sorted(init, query);
        lemma_dedup_runs_from(init);
        let r = dedup_runs(init);
        let d = dedup_runs(v);
        assert forall|i: int, j: int| 0 <= i < j < d.len() implies result_class(#[trigger] d[i], query) <= result_class(#[trigger] d[j], query) by {
            if j < r.len() {
                assert(d[i] == r[i] && d[j] == r[j]);
            } else {
                assert(d[i] == r[i]);
                assert(d[j] == v[v.len() - 1]);
                assert(init.contains(r[i]));
                let k = choose|k: int| 0 <= k < init.len() && init[k] == r[i];
                assert(v[k] == init[k]);
            }
        }
    }
}

/// The merged results of a search come in rank order (titles containing the query
/// first, importable ones first within that), and no result repeats the book of
/// the one just before it.
pub proof fn lemma_merge_results(answers: Seq<SourceAnswer>, query: Seq<char>)
    ensures
        class_sorted(spec_merge_results(answers, query), query),
        no_adjacent_repeats(spec_merge_results(answers, query)),
{
    let v = by_class(answered_results(answers), query);
    lemma_by_class_sorted(answered_results(answers), query);
    lemma_dedup_runs_sorted(v, query);
    lemma_dedup_runs_from(v);
}

/// The merged answer of a search.
pub open spec fn spec_merge_results(a: Seq<SourceAnswer>, query: Seq<char>) -> Seq<SearchView> {
    dedup_runs(by_class(answered_results(a), query))
}

/// Merges the answers of the searched sources: all results, titles containing the
/// query first and importable ones first within that, keeping the order otherwise,
/// without repeating a book right after itself; and a message per failed source.
pub fn merge_answers(answers: Vec<SourceAnswer>, query: &str, searched_sources: usize) -> (r: SearchResponse)
    ensures
        result_views(r.results@) == spec_merge_results(answers@, query@),
        r.failed_sources.deep_view() == failed_messages(answers@),
        r.searched_sources == searched_sources,
{
    let mut all: Vec<SearchResult> = Vec::new();
    let mut failed: Vec<String> = Vec::new();
    let mut i: usize = 0;
    assert(answers@.subrange(0, 0) =~= Seq::<SourceAnswer>::empty());
    while i < answers.len()
        invariant
            i <= answers.len(),
            result_views(all@) == answered_results(answers@.subrange(0, i as int)),
            failed.deep_view() == failed_messages(answers@.subrange(0, i as int)),
        decreases answers.len() - i,
    {
        assert(answers@.subrange(0, i + 1).drop_last() =~= answers@.subrange(0, i as int));
        assert(answers@.subrange(0, i + 1).last() == answers@[i as int]);
        match &answers[i].outcome {
            Ok(v) => {
                let ghost before = result_views(all@);
                let mut k: usize = 0;
                while k < v.len()
                    invariant
                        k <= v@.len(),
                        result_views(all@) == before + result_views(v@.subrange(0, k as int)),
                    decreases v@.len() - k,
                {
                    let ghost prev = result_views(all@);
                    all.push(v[k].duplicate());
                    assert(result_views(all@) =~= prev.push(v@[k as int]@));
                    assert(v@.subrange(0, k + 1) =~= v@.subrange(0, k as int).push(v@[k as int]));
                    assert(result_views(v@.subrange(0, k + 1)) =~= result_views(v@.subrange(0, k as int)).push(v@[k as int]@));
                    k += 1;
                    assert(result_views(all@) =~= before + result_views(v@.subrange(0, k as int)));
                }
                assert(v@.subrange(0, v@.len() as int) =~= v@);
            },
            Err(e) => {
                let mut msg = answers[i].name.clone();
                push_str(&mut msg, "：");
                push_str(&mut msg, e.as_str());
                let ghost before = failed.deep_view();
                failed.push(msg);
                assert(failed.deep_view() =~= before.push(answers@[i as int].name@ + "："@ + e@));
                assert(result_views(all@) =~= result_views(all@) + Seq::<SearchView>::empty());
            },
        }
        i += 1;
    }
    assert(answers@.subrange(0, answers.len() as int) =~= answers@);
    let q = trim_str(query);
    let qv = chars_of(q.as_str());
    let mut sorted: Vec<SearchResult> = Vec::new();
    let mut c: usize = 0;
    let ghost av = result_views(all@);
    assert(sorted@.len() == 0);
    while c < 4
        invariant
            c <= 4,
            av == result_views(all@),
            qv@ == trim(query@),
            result_views(sorted@) == if c == 0 {
                Seq::<SearchView>::empty()
            } else if c == 1 {
                of_class(av, query@, 0)
            } else if c == 2 {
                of_class(av, query@, 0) + of_class(av, query@, 1)
            } else if c == 3 {
                of_class(av, query@, 0) + of_class(av, query@, 1) + of_class(av, query@, 2)
            } else {
                by_class(av, query@)
            },
        decreases 4 - c,
    {
        let ghost before = result_views(sorted@);
        let mut k: usize = 0;
        assert(of_class(av.subrange(0, 0), query@, c as int) =~= Seq::<SearchView>::empty()) by {
            reveal(Seq::filter);
        }
        while k < all.len()
            invariant
                k <= all@.len(),
                av == result_views(all@),
                qv@ == trim(query@),
                c < 4,
                result_views(sorted@) == before + of_class(av.subrange(0, k as int), query@, c as int),
            decreases all@.len() - k,
        {
            let t = chars_of(all[k].title.as_str());
            let class: usize = (if contains_exec(&t, &qv) { 0 } else { 2 }) + (if all[k].import_compatible { 0 } else { 1 });
            proof {
                assert(av.subrange(0, k + 1) =~= av.subrange(0, k as int).push(av[k as int]));
                reveal(Seq::filter);
                assert(av.subrange(0, k as int).push(av[k as int]).drop_last() =~= av.subrange(0, k as int));
            }
            if class == c {
                let ghost b2 = result_views(sorted@);
                sorted.push(all[k].duplicate());
                assert(result_views(sorted@) =~= b2.push(av[k as int]));
            }
            k += 1;
        }
        assert(av.subrange(0, all@.len() as int) =~= av);
        c += 1;
    }
    // drop a result that repeats the book kept just before it
    let ghost sv = result_views(sorted@);
    let mut results: Vec<SearchResult> = Vec::new();
    let mut k: usize = 0;
    assert(sv.subrange(0, 0) =~= Seq::<SearchView>::empty());
    while k < sorted.len()
        invariant
            k <= sorted@.len(),
            sv == result_views(sorted@),
            result_views(results@) == dedup_runs(sv.subrange(0, k as int)),
        decreases sorted@.len() - k,
    {
        assert(sv.subrange(0, k + 1).drop_last() =~= sv.subrange(0, k as int));
        let n = results.len();
        let same = n > 0 && results[n - 1].title == sorted[k].title && results[n - 1].author == sorted[k].author
            && results[n - 1].book_url == sorted[k].book_url;
        if !same {
            let ghost before = result_views(results@);
            results.push(sorted[k].duplicate());
            assert(result_views(results@) =~= before.push(sv[k as int]));
        }
        k += 1;
    }
    assert(sv.subrange(0, sorted@.len() as int) =~= sv);
    SearchResponse { results, searched_sources, failed_sources: failed }
}

} // verus!
