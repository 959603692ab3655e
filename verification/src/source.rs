//! Legado book sources: which of them this client can search and import,
//! their keys, and the ordered overview of an installed repository.

use vstd::prelude::*;
use crate::rules::{has_script, spec_has_script};
use crate::outside::{json_array_check, json_array_error, parsed_url, url_parse};
use crate::json::{body_json, parse_json, value_get, value_get_exec, JsonDoc, JsonKind, JsonTree};
use crate::text::{ascii_lower, chars_of, contains, find, lemma_find_from_some, occurs_at, join, join_strings, parse_i64, parse_i64_exec, push_str, starts_with, starts_with_exec, string_from};
use crate::web::{before_fragment, DEFAULT_SOURCE_URL};

verus! {

/// What the rules of this client read from one Legado source (a JSON object of the
/// repository): each text is the string at that place, or empty when it is absent
/// or not a string.
pub struct BookSource {
    /// `bookSourceName`
    pub name: String,
    /// `bookSourceUrl`
    pub url: String,
    /// `bookSourceGroup`
    pub group: String,
    /// `searchUrl`
    pub search_url: String,
    /// `header`
    pub header: String,
    /// `enabled`, `true` when absent or not a boolean
    pub enabled: bool,
    /// `respondTime`, `999999` when absent or not an integer
    pub respond_time: i64,
    /// `ruleSearch.bookList`
    pub search_book_list: String,
    /// `ruleSearch.name`
    pub search_name: String,
    /// `ruleSearch.bookUrl`
    pub search_book_url: String,
    /// `ruleSearch.author`
    pub search_author: String,
    /// `ruleSearch.intro`
    pub search_intro: String,
    /// `ruleSearch.coverUrl`
    pub search_cover_url: String,
    /// `ruleBookInfo.init`
    pub info_init: String,
    /// `ruleBookInfo.tocUrl`
    pub info_toc_url: String,
    /// `ruleToc.chapterList`
    pub toc_chapter_list: String,
    /// `ruleToc.chapterName`
    pub toc_chapter_name: String,
    /// `ruleToc.chapterUrl`
    pub toc_chapter_url: String,
    /// `ruleToc.nextTocUrl`
    pub toc_next_url: String,
    /// `ruleContent.content`
    pub content_rule: String,
    /// `ruleContent.nextContentUrl`
    pub content_next_url: String,
}

impl Default for BookSource {
    /// A source with no text anywhere, enabled, with no measured response time.
    fn default() -> (s: BookSource)
        ensures
            s.name@.len() == 0 && s.url@.len() == 0 && s.group@.len() == 0 && s.search_url@.len() == 0,
            s.header@.len() == 0,
            s.enabled,
            s.respond_time == 999_999,
            s.search_book_list@.len() == 0 && s.search_name@.len() == 0 && s.search_book_url@.len() == 0,
            s.search_author@.len() == 0 && s.search_intro@.len() == 0 && s.search_cover_url@.len() == 0,
            s.info_init@.len() == 0 && s.info_toc_url@.len() == 0,
            s.toc_chapter_list@.len() == 0 && s.toc_chapter_name@.len() == 0 && s.toc_chapter_url@.len() == 0,
            s.toc_next_url@.len() == 0 && s.content_rule@.len() == 0 && s.content_next_url@.len() == 0,
    {
        BookSource {
            name: String::new(),
            url: String::new(),
            group: String::new(),
            search_url: String::new(),
            header: String::new(),
            enabled: true,
            respond_time: 999_999,
            search_book_list: String::new(),
            search_name: String::new(),
            search_book_url: String::new(),
            search_author: String::new(),
            search_intro: String::new(),
            search_cover_url: String::new(),
            info_init: String::new(),
            info_toc_url: String::new(),
            toc_chapter_list: String::new(),
            toc_chapter_name: String::new(),
            toc_chapter_url: String::new(),
            toc_next_url: String::new(),
            content_rule: String::new(),
            content_next_url: String::new(),
        }
    }
}

/// How a source is listed: its key, names, and what this client can do with it.
pub struct SourceItem {
    pub key: String,
    pub name: String,
    pub group: String,
    pub url: String,
    pub search_compatible: bool,
    pub import_compatible: bool,
    pub reason: String,
    pub response_time: i64,
}

/// The mathematical value of a listed source.
pub struct ItemView {
    pub key: Seq<char>,
    pub name: Seq<char>,
    pub group: Seq<char>,
    pub url: Seq<char>,
    pub search_compatible: bool,
    pub import_compatible: bool,
    pub reason: Seq<char>,
    pub response_time: i64,
}

impl View for SourceItem {
    type V = ItemView;

    open spec fn view(&self) -> ItemView {
        ItemView {
            key: self.key@,
            name: self.name@,
            group: self.group@,
            url: self.url@,
            search_compatible: self.search_compatible,
            import_compatible: self.import_compatible,
            reason: self.reason@,
            response_time: self.response_time,
        }
    }
}

impl SourceItem {
    /// A copy of the item.
    pub fn duplicate(&self) -> (r: SourceItem)
        ensures
            r@ == self@,
    {
        SourceItem {
            key: self.key.clone(),
            name: self.name.clone(),
            group: self.group.clone(),
            url: self.url.clone(),
            search_compatible: self.search_compatible,
            import_compatible: self.import_compatible,
            reason: self.reason.clone(),
            response_time: self.response_time,
        }
    }
}

/// The overview of the installed repository.
pub struct SourceStatus {
    pub installed: bool,
    pub repository_url: String,
    pub total: usize,
    pub searchable: usize,
    pub importable: usize,
    pub sources: Vec<SourceItem>,
}

// ---------------------------------------------------------------------------
// Model
// ---------------------------------------------------------------------------

/// The key of a source: its name and URL, separated by `|`.
pub open spec fn spec_source_key(s: BookSource) -> Seq<char> {
    s.name@ + "|"@ + s.url@
}

/// The search rules a source must give in a form this client reads.
pub open spec fn search_rules(s: BookSource) -> Seq<char> {
    join(seq![s.search_book_list@, s.search_name@, s.search_book_url@], " "@)
}

/// The rules for importing a book.
pub open spec fn import_rules(s: BookSource) -> Seq<char> {
    join(
        seq![
            s.info_init@, s.info_toc_url@, s.toc_chapter_list@, s.toc_chapter_name@,
            s.toc_chapter_url@, s.toc_next_url@, s.content_rule@, s.content_next_url@,
        ],
        " "@,
    )
}

/// The source can be searched by this client: it is enabled, has a search URL, no
/// script in its search rules, a book list that is not an XPath, and a valid URL.
pub open spec fn spec_search_compatible(s: BookSource) -> bool {
    &&& s.enabled
    &&& s.search_url@.len() > 0
    &&& !spec_has_script(s.search_url@)
    &&& !spec_has_script(search_rules(s))
    &&& !starts_with(s.search_book_list@, "//"@)
    &&& parsed_url(before_fragment(s.url@)) is Some
}

/// Books of the source can also be imported: no script in the import rules, chapter
/// list, chapter URL and content rules given, no paged content, no XPath chapter list.
pub open spec fn spec_import_compatible(s: BookSource) -> bool {
    &&& spec_search_compatible(s)
    &&& !spec_has_script(import_rules(s))
    &&& s.toc_chapter_list@.len() > 0
    &&& s.toc_chapter_url@.len() > 0
    &&& s.content_rule@.len() > 0
    &&& s.content_next_url@.len() == 0
    &&& !starts_with(s.toc_chapter_list@, "//"@)
}

/// The explanation shown for a source.
pub open spec fn spec_reason(s: BookSource) -> Seq<char> {
    if spec_import_compatible(s) {
        "可搜索并自动抓取"@
    } else if spec_search_compatible(s) {
        "可搜索，正文规则暂不兼容"@
    } else if s.content_next_url@.len() > 0 {
        "章节正文分页规则暂不兼容"@
    } else if spec_has_script(s.search_url@ + " "@ + search_rules(s)) {
        "包含 JavaScript 规则"@
    } else {
        "规则类型暂不兼容"@
    }
}

/// How a source is listed.
pub open spec fn spec_source_item(s: BookSource) -> ItemView {
    ItemView {
        key: spec_source_key(s),
        name: s.name@,
        group: s.group@,
        url: s.url@,
        search_compatible: spec_search_compatible(s),
        import_compatible: spec_import_compatible(s),
        reason: spec_reason(s),
        response_time: s.respond_time,
    }
}

/// The response time used for ordering: values under 50 count as unmeasured.
pub open spec fn rank(t: i64) -> int {
    if t < 50 {
        999_999
    } else {
        t as int
    }
}

/// Lexicographic order of texts (that of `String::cmp`).
pub open spec fn text_lt(a: Seq<char>, b: Seq<char>) -> bool
    decreases a.len(),
{
    if a.len() == 0 {
        b.len() > 0
    } else if b.len() == 0 {
        false
    } else if a[0] != b[0] {
        (a[0] as u32) < (b[0] as u32)
    } else {
        text_lt(a.drop_first(), b.drop_first())
    }
}

/// `a` is listed before `b`: importable first, then searchable, then faster, then by name.
pub open spec fn item_lt(a: ItemView, b: ItemView) -> bool {
    if a.import_compatible != b.import_compatible {
        a.import_compatible
    } else if a.search_compatible != b.search_compatible {
        a.search_compatible
    } else if rank(a.response_time) != rank(b.response_time) {
        rank(a.response_time) < rank(b.response_time)
    } else {
        text_lt(a.name, b.name)
    }
}

/// Where `x` goes in a sorted list: before the first element it precedes.
pub open spec fn insert_pos(sorted: Seq<ItemView>, x: ItemView, i: int) -> int
    decreases sorted.len() - i,
{
    if i < 0 || i >= sorted.len() {
        sorted.len() as int
    } else if item_lt(x, sorted[i]) {
        i
    } else {
        insert_pos(sorted, x, i + 1)
    }
}

/// The stable sort of a list: each element, in order, inserted after every element
/// it does not precede.
pub open spec fn sort_items(s: Seq<ItemView>) -> Seq<ItemView>
    decreases s.len(),
{
    if s.len() == 0 {
        Seq::empty()
    } else {
        let sorted = sort_items(s.drop_last());
        sorted.insert(insert_pos(sorted, s.last(), 0), s.last())
    }
}

/// Some of the items carries `key`.
pub open spec fn has_key(s: Seq<ItemView>, key: Seq<char>) -> bool {
    exists|j: int| 0 <= j < s.len() && s[j].key == key
}

/// The items without those whose key an earlier item carries.
pub open spec fn dedup_keys(s: Seq<ItemView>) -> Seq<ItemView>
    decreases s.len(),
{
    if s.len() == 0 {
        Seq::empty()
    } else if has_key(s.drop_last(), s.last().key) {
        dedup_keys(s.drop_last())
    } else {
        dedup_keys(s.drop_last()).push(s.last())
    }
}

/// The number of items that satisfy `p`.
pub open spec fn count_where(s: Seq<ItemView>, p: spec_fn(ItemView) -> bool) -> nat
    decreases s.len(),
{
    if s.len() == 0 {
        0
    } else {
        count_where(s.drop_last(), p) + if p(s.last()) { 1nat } else { 0nat }
    }
}

/// The listed sources of a repository: one per key, in listing order.
pub open spec fn listed(sources: Seq<BookSource>) -> Seq<ItemView> {
    sort_items(dedup_keys(sources.map_values(|s: BookSource| spec_source_item(s))))
}

/// The views of listed items.
pub open spec fn views(v: Seq<SourceItem>) -> Seq<ItemView> {
    v.map_values(|i: SourceItem| i@)
}


// ---------------------------------------------------------------------------
// Laws of the listing
// ---------------------------------------------------------------------------

/// The items come in listing order.
pub open spec fn sorted_items(s: Seq<ItemView>) -> bool {
    forall|i: int, j: int| 0 <= i < j < s.len() ==> !item_lt(#[trigger] s[j], #[trigger] s[i])
}

/// No two items carry the same key.
pub open spec fn unique_keys(s: Seq<ItemView>) -> bool {
    forall|i: int, j: int| 0 <= i < j < s.len() ==> #[trigger] s[i].key != #[trigger] s[j].key
}

/// No text comes before itself.
pub proof fn lemma_text_lt_irrefl(a: Seq<char>)
    ensures
        !text_lt(a, a),
    decreases a.len(),
{
    if a.len() > 0 {
        lemma_text_lt_irrefl(a.drop_first());
    }
}

/// The lexicographic order of texts is transitive.
pub proof fn lemma_text_lt_trans(a: Seq<char>, b: Seq<char>, c: Seq<char>)
    requires
        text_lt(a, b),
        text_lt(b, c),
    ensures
        text_lt(a, c),
    decreases a.len(),
{
    if a.len() > 0 && b.len() > 0 && c.len() > 0 && a[0] == b[0] && b[0] == c[0] {
        lemma_text_lt_trans(a.drop_first(), b.drop_first(), c.drop_first());
    }
}

/// The listing order is a strict order: irreflexive and transitive.
pub proof fn lemma_item_lt_order(a: ItemView, b: ItemView, c: ItemView)
    ensures
        !item_lt(a, a),
        item_lt(a, b) && item_lt(b, c) ==> item_lt(a, c),
        item_lt(a, b) ==> !item_lt(b, a),
{
    lemma_text_lt_irrefl(a.name);
    if text_lt(a.name, b.name) && text_lt(b.name, c.name) {
        lemma_text_lt_trans(a.name, b.name, c.name);
    }
    if text_lt(a.name, b.name) && text_lt(b.name, a.name) {
        lemma_text_lt_trans(a.name, b.name, a.name);
    }
}

proof fn lemma_insert_pos(sorted: Seq<ItemView>, x: ItemView, i: int)
    requires
        0 <= i <= sorted.len(),
    ensures
        i <= insert_pos(sorted, x, i) <= sorted.len(),
        forall|k: int| i <= k < insert_pos(sorted, x, i) ==> !item_lt(x, #[trigger] sorted[k]),
        insert_pos(sorted, x, i) < sorted.len() ==> item_lt(x, sorted[insert_pos(sorted, x, i)]),
    decreases sorted.len() - i,
{
    if i < sorted.len() && !item_lt(x, sorted[i]) {
        lemma_insert_pos(sorted, x, i + 1);
    }
}

proof fn lemma_sort_items(s: Seq<ItemView>)
    ensures
        sorted_items(sort_items(s)),
        sort_items(s).to_multiset() == s.to_multiset(),
        sort_items(s).len() == s.len(),
        forall|k: Seq<char>| has_key(sort_items(s), k) == has_key(s, k),
        unique_keys(s) ==> unique_keys(sort_items(s)),
    decreases s.len(),
{
    broadcast use vstd::seq_lib::to_multiset_insert;
    if s.len() == 0 {
        assert(s =~= Seq::<ItemView>::empty());
    } else {
        let init = s.drop_last();
        let x = s.last();
        lemma_sort_items(init);
        let sorted = sort_items(init);
        lemma_insert_pos(sorted, x, 0);
        let p = insert_pos(sorted, x, 0);
        let r = sorted.insert(p, x);
        assert(r == sort_items(s));
        assert forall|i: int, j: int| 0 <= i < j < r.len() implies !item_lt(#[trigger] r[j], #[trigger] r[i]) by {
            if j < p {
                assert(r[i] == sorted[i] && r[j] == sorted[j]);
            } else if j == p {
                assert(r[i] == sorted[i]);
            } else if i < p {
                assert(r[i] == sorted[i] && r[j] == sorted[j - 1]);
            } else if i == p {
                // x precedes sorted[p], which nothing later precedes
                assert(r[j] == sorted[j - 1]);
                lemma_item_lt_order(sorted[j - 1], x, sorted[p]);
                if j - 1 > p {
                    assert(!item_lt(sorted[j - 1], sorted[p]));
                } else {
                    lemma_item_lt_order(x, sorted[p], x);
                }
            } else {
                assert(r[i] == sorted[i - 1] && r[j] == sorted[j - 1]);
            }
        }
        assert(s =~= init.push(x));
        vstd::seq_lib::to_multiset_build(init, x);
        assert forall|k: Seq<char>| has_key(r, k) == has_key(s, k) by {
            if has_key(r, k) {
                let j = choose|j: int| 0 <= j < r.len() && r[j].key == k;
                if j < p {
                    assert(r[j] == sorted[j]);
                } else if j == p {
                    assert(s[s.len() - 1].key == k);
                } else {
                    assert(r[j] == sorted[j - 1]);
                }
                if j != p {
                    assert(has_key(sorted, k));
                    assert(has_key(init, k));
                    let q = choose|q: int| 0 <= q < init.len() && init[q].key == k;
                    assert(s[q] == init[q]);
                }
            }
            if has_key(s, k) {
                let j = choose|j: int| 0 <= j < s.len() && s[j].key == k;
                if j == s.len() - 1 {
                    assert(r[p].key == k);
                } else {
                    assert(init[j] == s[j]);
                    assert(has_key(init, k));
                    let q = choose|q: int| 0 <= q < sorted.len() && sorted[q].key == k;
                    if q < p {
                        assert(r[q] == sorted[q]);
                    } else {
                        assert(r[q + 1] == sorted[q]);
                    }
                }
            }
        }
        if unique_keys(s) {
            assert(unique_keys(init)) by {
                assert forall|i: int, j: int| 0 <= i < j < init.len() implies #[trigger] init[i].key != #[trigger] init[j].key by {
                    assert(init[i] == s[i] && init[j] == s[j]);
                }
            }
            assert(!has_key(sorted, x.key)) by {
                if has_key(init, x.key) {
                    let q = choose|q: int| 0 <= q < init.len() && init[q].key == x.key;
                    assert(s[q].key == s[s.len() - 1].key);
                }
            }
            assert forall|i: int, j: int| 0 <= i < j < r.len() implies #[trigger] r[i].key != #[trigger] r[j].key by {
                if i == p {
                    assert(r[j] == sorted[j - 1]);
                } else if j == p {
                    assert(r[i] == sorted[i]);
                } else {
                    let i0 = if i < p { i } else { i - 1 };
                    let j0 = if j < p { j } else { j - 1 };
                    assert(r[i] == sorted[i0] && r[j] == sorted[j0]);
                }
            }
        }
    }
}

proof fn lemma_dedup_keys(s: Seq<ItemView>)
    ensures
        unique_keys(dedup_keys(s)),
        forall|k: Seq<char>| has_key(dedup_keys(s), k) == has_key(s, k),
    decreases s.len(),
{
    if s.len() > 0 {
        let init = s.drop_last();
        let x = s.last();
        lemma_dedup_keys(init);
        let d = dedup_keys(init);
        assert(s =~= init.push(x));
        if has_key(init, x.key) {
            assert forall|k: Seq<char>| has_key(d, k) == has_key(s, k) by {
                if has_key(s, k) {
                    let j = choose|j: int| 0 <= j < s.len() && s[j].key == k;
                    if j < s.len() - 1 {
                        assert(init[j] == s[j]);
                    }
                }
                if has_key(init, k) {
                    let j = choose|j: int| 0 <= j < init.len() && init[j].key == k;
                    assert(s[j] == init[j]);
                }
            }
        } else {
            let r = d.push(x);
            assert forall|k: Seq<char>| has_key(r, k) == has_key(s, k) by {
                if has_key(s, k) {
                    let j = choose|j: int| 0 <= j < s.len() && s[j].key == k;
                    if j < s.len() - 1 {
                        assert(init[j] == s[j]);
                        assert(has_key(init, k));
                        assert(has_key(d, k));
                        let q = choose|q: int| 0 <= q < d.len() && d[q].key == k;
                        assert(r[q] == d[q]);
                    } else {
                        assert(r[d.len() as int] == x);
                    }
                }
                if has_key(r, k) {
                    let j = choose|j: int| 0 <= j < r.len() && r[j].key == k;
                    if j < d.len() {
                        assert(r[j] == d[j]);
                        assert(has_key(init, k));
                        let q = choose|q: int| 0 <= q < init.len() && init[q].key == k;
                        assert(s[q] == init[q]);
                    } else {
                        assert(s[s.len() - 1].key == k);
                    }
                }
            }
            assert forall|i: int, j: int| 0 <= i < j < r.len() implies #[trigger] r[i].key != #[trigger] r[j].key by {
                if j == d.len() {
                    assert(r[i] == d[i]);
                    if d[i].key == x.key {
                        assert(has_key(d, x.key));
                    }
                } else {
                    assert(r[i] == d[i] && r[j] == d[j]);
                }
            }
        }
    }
}

/// The overview lists every source of the repository exactly once per key, in
/// listing order (importable first, then searchable, then faster, then by name),
/// and each listed source is the first one of the repository with its key.
pub proof fn lemma_listing(sources: Seq<BookSource>)
    ensures
        sorted_items(listed(sources)),
        unique_keys(listed(sources)),
        forall|i: int| 0 <= i < sources.len() ==> has_key(listed(sources), #[trigger] spec_source_key(sources[i])),
        forall|i: int| 0 <= i < listed(sources).len() ==> has_key(
            sources.map_values(|s: BookSource| spec_source_item(s)),
            #[trigger] listed(sources)[i].key,
        ),
        listed(sources).to_multiset() == dedup_keys(sources.map_values(|s: BookSource| spec_source_item(s))).to_multiset(),
{
    let all = sources.map_values(|s: BookSource| spec_source_item(s));
    lemma_dedup_keys(all);
    lemma_sort_items(dedup_keys(all));
    assert forall|i: int| 0 <= i < sources.len() implies has_key(listed(sources), #[trigger] spec_source_key(sources[i])) by {
        assert(all[i].key == spec_source_key(sources[i]));
        assert(has_key(all, all[i].key));
    }
    assert forall|i: int| 0 <= i < listed(sources).len() implies has_key(all, #[trigger] listed(sources)[i].key) by {
        assert(has_key(listed(sources), listed(sources)[i].key));
    }
}

/// Every item that can import can also search.
pub open spec fn coherent(s: Seq<ItemView>) -> bool {
    forall|i: int| 0 <= i < s.len() ==> (#[trigger] s[i]).import_compatible ==> s[i].search_compatible
}

/// A source that can import can also search.
pub proof fn lemma_importable_searchable(s: BookSource)
    ensures
        spec_import_compatible(s) ==> spec_search_compatible(s),
        spec_source_item(s).import_compatible ==> spec_source_item(s).search_compatible,
{
}

/// A text that occurs, lower-cased, in one of the parts still occurs, lower-cased,
/// in the parts joined.
proof fn lemma_join_keeps_lower(parts: Seq<Seq<char>>, sep: Seq<char>, k: int, m: Seq<char>)
    requires
        0 <= k < parts.len(),
        contains(ascii_lower(parts[k]), m),
    ensures
        contains(ascii_lower(join(parts, sep)), m),
    decreases parts.len(),
{
    lemma_find_from_some(ascii_lower(parts[k]), m, 0);
    let j = find(ascii_lower(parts[k]), m).unwrap();
    if parts.len() == 1 {
        assert(join(parts, sep) == parts[0]);
    } else {
        let front = join(parts.drop_last(), sep);
        assert(join(parts, sep) == front + sep + parts.last());
        let whole = ascii_lower(join(parts, sep));
        if k == parts.len() - 1 {
            let off = front.len() + sep.len();
            assert(whole.subrange(off + j, off + j + m.len()) =~= ascii_lower(parts[k]).subrange(j, j + m.len()));
            assert(occurs_at(whole, m, off + j));
        } else {
            assert(parts.drop_last()[k] == parts[k]);
            lemma_join_keeps_lower(parts.drop_last(), sep, k, m);
            let lf = ascii_lower(front);
            lemma_find_from_some(lf, m, 0);
            let i = find(lf, m).unwrap();
            assert(whole.subrange(i, i + m.len()) =~= lf.subrange(i, i + m.len()));
            assert(occurs_at(whole, m, i));
        }
        lemma_find_from_some(whole, m, 0);
    }
}

/// A script in one of the rules of a source's import rules is a script in them.
proof fn lemma_import_rule_script(s: BookSource, k: int)
    requires
        0 <= k < 8,
        spec_has_script(seq![
            s.info_init@, s.info_toc_url@, s.toc_chapter_list@, s.toc_chapter_name@,
            s.toc_chapter_url@, s.toc_next_url@, s.content_rule@, s.content_next_url@,
        ][k]),
    ensures
        spec_has_script(import_rules(s)),
{
    let parts = seq![
        s.info_init@, s.info_toc_url@, s.toc_chapter_list@, s.toc_chapter_name@,
        s.toc_chapter_url@, s.toc_next_url@, s.content_rule@, s.content_next_url@,
    ];
    let l = ascii_lower(parts[k]);
    if contains(l, "@js"@) {
        lemma_join_keeps_lower(parts, " "@, k, "@js"@);
    } else if contains(l, "<js"@) {
        lemma_join_keeps_lower(parts, " "@, k, "<js"@);
    } else if contains(l, "java."@) {
        lemma_join_keeps_lower(parts, " "@, k, "java."@);
    } else if contains(l, "eval("@) {
        lemma_join_keeps_lower(parts, " "@, k, "eval("@);
    } else if contains(l, "@get:"@) {
        lemma_join_keeps_lower(parts, " "@, k, "@get:"@);
    } else {
        lemma_join_keeps_lower(parts, " "@, k, "@put:"@);
    }
}

/// A source whose content rule, chapter rules or book-info rules hold a script
/// (`@js`, `<js`, `java.`, `eval(`, `@get:`, `@put:`, in any case) cannot import:
/// it is listed as not import-compatible, without the explanation of a source that can.
pub proof fn lemma_script_blocks_import(s: BookSource)
    requires
        spec_has_script(s.content_rule@) || spec_has_script(s.content_next_url@)
            || spec_has_script(s.toc_chapter_list@) || spec_has_script(s.toc_chapter_name@)
            || spec_has_script(s.toc_chapter_url@) || spec_has_script(s.toc_next_url@)
            || spec_has_script(s.info_init@) || spec_has_script(s.info_toc_url@),
    ensures
        !spec_import_compatible(s),
        !spec_source_item(s).import_compatible,
        spec_source_item(s).reason != "可搜索并自动抓取"@,
        spec_search_compatible(s) ==> spec_source_item(s).reason == "可搜索，正文规则暂不兼容"@,
{
    let parts = seq![
        s.info_init@, s.info_toc_url@, s.toc_chapter_list@, s.toc_chapter_name@,
        s.toc_chapter_url@, s.toc_next_url@, s.content_rule@, s.content_next_url@,
    ];
    if spec_has_script(s.content_rule@) {
        lemma_import_rule_script(s, 6);
    } else if spec_has_script(s.content_next_url@) {
        lemma_import_rule_script(s, 7);
    } else if spec_has_script(s.toc_chapter_list@) {
        lemma_import_rule_script(s, 2);
    } else if spec_has_script(s.toc_chapter_name@) {
        lemma_import_rule_script(s, 3);
    } else if spec_has_script(s.toc_chapter_url@) {
        lemma_import_rule_script(s, 4);
    } else if spec_has_script(s.toc_next_url@) {
        lemma_import_rule_script(s, 5);
    } else if spec_has_script(s.info_init@) {
        lemma_import_rule_script(s, 0);
    } else {
        lemma_import_rule_script(s, 1);
    }
    assert(spec_reason(s) == spec_source_item(s).reason);
    reveal_strlit("可搜索并自动抓取");
    reveal_strlit("可搜索，正文规则暂不兼容");
    reveal_strlit("章节正文分页规则暂不兼容");
    reveal_strlit("包含 JavaScript 规则");
    reveal_strlit("规则类型暂不兼容");
    assert("可搜索并自动抓取"@[3] != "可搜索，正文规则暂不兼容"@[3]);
    assert("可搜索并自动抓取"@[0] != "章节正文分页规则暂不兼容"@[0]);
    assert("可搜索并自动抓取"@[0] != "包含 JavaScript 规则"@[0]);
    assert("可搜索并自动抓取"@[0] != "规则类型暂不兼容"@[0]);
}

proof fn lemma_dedup_coherent(s: Seq<ItemView>)
    requires
        coherent(s),
    ensures
        coherent(dedup_keys(s)),
    decreases s.len(),
{
    if s.len() > 0 {
        let init = s.drop_last();
        assert forall|i: int| 0 <= i < init.len() && (#[trigger] init[i]).import_compatible implies init[i].search_compatible by {
            assert(init[i] == s[i]);
        }
        lemma_dedup_coherent(init);
        assert(s[s.len() - 1] == s.last());
    }
}

proof fn lemma_sort_coherent(s: Seq<ItemView>)
    requires
        coherent(s),
    ensures
        coherent(sort_items(s)),
    decreases s.len(),
{
    if s.len() > 0 {
        let init = s.drop_last();
        assert forall|i: int| 0 <= i < init.len() && (#[trigger] init[i]).import_compatible implies init[i].search_compatible by {
            assert(init[i] == s[i]);
        }
        lemma_sort_coherent(init);
        let sorted = sort_items(init);
        lemma_insert_pos(sorted, s.last(), 0);
        let p = insert_pos(sorted, s.last(), 0);
        let r = sorted.insert(p, s.last());
        assert(s[s.len() - 1] == s.last());
        assert forall|i: int| 0 <= i < r.len() && (#[trigger] r[i]).import_compatible implies r[i].search_compatible by {
            if i < p {
                assert(r[i] == sorted[i]);
            } else if i > p {
                assert(r[i] == sorted[i - 1]);
            }
        }
    }
}

proof fn lemma_count_coherent(s: Seq<ItemView>)
    requires
        coherent(s),
    ensures
        count_where(s, |x: ItemView| x.import_compatible) <= count_where(s, |x: ItemView| x.search_compatible),
        count_where(s, |x: ItemView| x.search_compatible) <= s.len(),
    decreases s.len(),
{
    if s.len() > 0 {
        let init = s.drop_last();
        assert forall|i: int| 0 <= i < init.len() && (#[trigger] init[i]).import_compatible implies init[i].search_compatible by {
            assert(init[i] == s[i]);
        }
        lemma_count_coherent(init);
        assert(s[s.len() - 1] == s.last());
    }
}

/// In the overview, no more sources can import than can search, and no more can
/// search than are listed.
pub proof fn lemma_status_counts(sources: Seq<BookSource>)
    ensures
        count_where(listed(sources), |x: ItemView| x.import_compatible)
            <= count_where(listed(sources), |x: ItemView| x.search_compatible),
        count_where(listed(sources), |x: ItemView| x.search_compatible) <= listed(sources).len(),
{
    let all = sources.map_values(|s: BookSource| spec_source_item(s));
    assert forall|i: int| 0 <= i < all.len() && (#[trigger] all[i]).import_compatible implies all[i].search_compatible by {
        lemma_importable_searchable(sources[i]);
    }
    lemma_dedup_coherent(all);
    lemma_sort_coherent(dedup_keys(all));
    lemma_count_coherent(listed(sources));
}

// ---------------------------------------------------------------------------
// Executable
// ---------------------------------------------------------------------------

/// The key of a source.
pub fn source_key(s: &BookSource) -> (r: String)
    ensures
        r@ == spec_source_key(*s),
{
    let mut r = s.name.clone();
    push_str(&mut r, "|");
    push_str(&mut r, s.url.as_str());
    r
}

/// Whether a text begins with `//` (an XPath rule).
fn is_xpath(s: &String) -> (b: bool)
    ensures
        b == starts_with(s@, "//"@),
{
    starts_with_exec(&chars_of(s.as_str()), &chars_of("//"))
}

/// How a source is listed, with what this client can do with it.
pub fn source_item(s: &BookSource) -> (item: SourceItem)
    ensures
        item@ == spec_source_item(*s),
{
    let mut sr: Vec<String> = Vec::new();
    sr.push(s.search_book_list.clone());
    sr.push(s.search_name.clone());
    sr.push(s.search_book_url.clone());
    assert(sr.deep_view() =~= seq![s.search_book_list@, s.search_name@, s.search_book_url@]);
    let search_rules = join_strings(&sr, " ");
    let mut ir: Vec<String> = Vec::new();
    ir.push(s.info_init.clone());
    ir.push(s.info_toc_url.clone());
    ir.push(s.toc_chapter_list.clone());
    ir.push(s.toc_chapter_name.clone());
    ir.push(s.toc_chapter_url.clone());
    ir.push(s.toc_next_url.clone());
    ir.push(s.content_rule.clone());
    ir.push(s.content_next_url.clone());
    assert(ir.deep_view() =~= seq![
        s.info_init@, s.info_toc_url@, s.toc_chapter_list@, s.toc_chapter_name@,
        s.toc_chapter_url@, s.toc_next_url@, s.content_rule@, s.content_next_url@,
    ]);
    let import_rules = join_strings(&ir, " ");
    let uv = chars_of(s.url.as_str());
    let hash = chars_of("#");
    let url_main = match crate::text::find_from_exec(&uv, &hash, 0) {
        Some(i) => string_from(&uv, 0, i),
        None => crate::text::string_of(&uv),
    };
    let search_compatible = s.enabled && !s.search_url.as_str().is_empty() && !has_script(s.search_url.as_str())
        && !has_script(search_rules.as_str()) && !is_xpath(&s.search_book_list)
        && url_parse(url_main.as_str()).is_some();
    let import_compatible = search_compatible && !has_script(import_rules.as_str())
        && !s.toc_chapter_list.as_str().is_empty() && !s.toc_chapter_url.as_str().is_empty()
        && !s.content_rule.as_str().is_empty() && s.content_next_url.as_str().is_empty()
        && !is_xpath(&s.toc_chapter_list);
    let reason = if import_compatible {
        "可搜索并自动抓取".to_owned()
    } else if search_compatible {
        "可搜索，正文规则暂不兼容".to_owned()
    } else if !s.content_next_url.as_str().is_empty() {
        "章节正文分页规则暂不兼容".to_owned()
    } else {
        let mut all = s.search_url.clone();
        push_str(&mut all, " ");
        push_str(&mut all, search_rules.as_str());
        if has_script(all.as_str()) {
            "包含 JavaScript 规则".to_owned()
        } else {
            "规则类型暂不兼容".to_owned()
        }
    };
    SourceItem {
        key: source_key(s),
        name: s.name.clone(),
        group: s.group.clone(),
        url: s.url.clone(),
        search_compatible,
        import_compatible,
        reason,
        response_time: s.respond_time,
    }
}

fn rank_exec(t: i64) -> (r: i64)
    ensures
        r == rank(t),
{
    if t < 50 {
        999_999
    } else {
        t
    }
}

/// Lexicographic order of texts.
pub fn text_lt_exec(a: &str, b: &str) -> (r: bool)
    ensures
        r == text_lt(a@, b@),
{
    let av = chars_of(a);
    let bv = chars_of(b);
    let mut i: usize = 0;
    assert(av@.subrange(0, av@.len() as int) =~= av@);
    assert(bv@.subrange(0, bv@.len() as int) =~= bv@);
    while i < av.len() && i < bv.len() && av[i] == bv[i]
        invariant
            i <= av@.len(),
            i <= bv@.len(),
            text_lt(av@, bv@) == text_lt(av@.subrange(i as int, av@.len() as int), bv@.subrange(i as int, bv@.len() as int)),
        decreases av@.len() - i,
    {
        assert(av@.subrange(i as int, av@.len() as int).drop_first() =~= av@.subrange(i + 1, av@.len() as int));
        assert(bv@.subrange(i as int, bv@.len() as int).drop_first() =~= bv@.subrange(i + 1, bv@.len() as int));
        i += 1;
    }
    assert(av@.subrange(0, av@.len() as int) =~= av@);
    assert(bv@.subrange(0, bv@.len() as int) =~= bv@);
    if i == av.len() {
        i < bv.len()
    } else if i == bv.len() {
        false
    } else {
        (av[i] as u32) < (bv[i] as u32)
    }
}

/// Whether `a` is listed before `b`.
pub fn item_lt_exec(a: &SourceItem, b: &SourceItem) -> (r: bool)
    ensures
        r == item_lt(a@, b@),
{
    if a.import_compatible != b.import_compatible {
        a.import_compatible
    } else if a.search_compatible != b.search_compatible {
        a.search_compatible
    } else {
        let ra = rank_exec(a.response_time);
        let rb = rank_exec(b.response_time);
        if ra != rb {
            ra < rb
        } else {
            text_lt_exec(a.name.as_str(), b.name.as_str())
        }
    }
}

/// The list without items whose key an earlier item carries.
fn dedup_items(items: &Vec<SourceItem>) -> (r: Vec<SourceItem>)
    ensures
        views(r@) == dedup_keys(views(items@)),
{
    let ghost vs = views(items@);
    let mut r: Vec<SourceItem> = Vec::new();
    let mut i: usize = 0;
    assert(vs.subrange(0, 0) =~= Seq::<ItemView>::empty());
    assert(views(r@) =~= Seq::<ItemView>::empty());
    while i < items.len()
        invariant
            vs == views(items@),
            i <= items.len(),
            views(r@) == dedup_keys(vs.subrange(0, i as int)),
        decreases items.len() - i,
    {
        let ghost prefix = vs.subrange(0, i as int);
        assert(vs.subrange(0, i + 1).drop_last() =~= prefix);
        assert(vs.subrange(0, i + 1).last() == items@[i as int]@);
        let mut seen = false;
        let mut j: usize = 0;
        while j < i
            invariant
                vs == views(items@),
                j <= i < items.len(),
                prefix == vs.subrange(0, i as int),
                seen == exists|k: int| 0 <= k < j && prefix[k].key == items@[i as int].key@,
            decreases i - j,
        {
            assert(prefix[j as int] == items@[j as int]@);
            if items[j].key == items[i].key {
                seen = true;
            }
            j += 1;
        }
        assert(seen == has_key(prefix, items@[i as int].key@));
        if !seen {
            let ghost before = views(r@);
            r.push(items[i].duplicate());
            assert(views(r@) =~= before.push(items@[i as int]@));
        }
        i += 1;
    }
    assert(vs.subrange(0, items.len() as int) =~= vs);
    r
}

/// The stable sort of the items in listing order.
fn sort_listed(items: Vec<SourceItem>) -> (r: Vec<SourceItem>)
    ensures
        views(r@) == sort_items(views(items@)),
{
    let ghost vs = views(items@);
    let mut r: Vec<SourceItem> = Vec::new();
    let mut i: usize = 0;
    assert(vs.subrange(0, 0) =~= Seq::<ItemView>::empty());
    assert(views(r@) =~= Seq::<ItemView>::empty());
    while i < items.len()
        invariant
            vs == views(items@),
            i <= items.len(),
            views(r@) == sort_items(vs.subrange(0, i as int)),
        decreases items.len() - i,
    {
        let ghost sorted = views(r@);
        assert(vs.subrange(0, i + 1).drop_last() =~= vs.subrange(0, i as int));
        assert(vs.subrange(0, i + 1).last() == items@[i as int]@);
        let mut p: usize = 0;
        while p < r.len() && !item_lt_exec(&items[i], &r[p])
            invariant
                i < items.len(),
                sorted == views(r@),
                p <= r@.len(),
                insert_pos(sorted, items@[i as int]@, 0) == insert_pos(sorted, items@[i as int]@, p as int),
            decreases r@.len() - p,
        {
            p += 1;
        }
        r.insert(p, items[i].duplicate());
        assert(views(r@) =~= sorted.insert(p as int, items@[i as int]@));
        i += 1;
    }
    assert(vs.subrange(0, items.len() as int) =~= vs);
    r
}

/// The overview of an installed repository: every source listed once per key (the
/// first with that key), importable ones first, then searchable ones, then by
/// measured response time, then by name; with the counts.
pub fn build_status(sources: &Vec<BookSource>, repository_url: String) -> (st: SourceStatus)
    ensures
        st.installed,
        st.repository_url@ == repository_url@,
        st.total == sources.len(),
        views(st.sources@) == listed(sources@),
        st.searchable == count_where(listed(sources@), |x: ItemView| x.search_compatible),
        st.importable == count_where(listed(sources@), |x: ItemView| x.import_compatible),
{
    let mut items: Vec<SourceItem> = Vec::new();
    let mut i: usize = 0;
    while i < sources.len()
        invariant
            i <= sources.len(),
            views(items@) == sources@.subrange(0, i as int).map_values(|s: BookSource| spec_source_item(s)),
        decreases sources.len() - i,
    {
        let item = source_item(&sources[i]);
        let ghost before = views(items@);
        let ghost iv = item@;
        items.push(item);
        assert(views(items@) =~= before.push(iv));
        assert(sources@.subrange(0, i + 1).map_values(|s: BookSource| spec_source_item(s))
            =~= sources@.subrange(0, i as int).map_values(|s: BookSource| spec_source_item(s)).push(
                spec_source_item(sources@[i as int])));
        i += 1;
    }
    assert(sources@.subrange(0, sources.len() as int) =~= sources@);
    let unique = dedup_items(&items);
    let sorted = sort_listed(unique);
    let searchable = count_searchable(&sorted);
    let importable = count_importable(&sorted);
    SourceStatus {
        installed: true,
        repository_url,
        total: sources.len(),
        searchable,
        importable,
        sources: sorted,
    }
}

/// The number of searchable items.
fn count_searchable(v: &Vec<SourceItem>) -> (n: usize)
    ensures
        n == count_where(views(v@), |x: ItemView| x.search_compatible),
{
    let mut n: usize = 0;
    let mut i: usize = 0;
    while i < v.len()
        invariant
            i <= v.len(),
            n <= i,
            n == count_where(views(v@).subrange(0, i as int), |x: ItemView| x.search_compatible),
        decreases v.len() - i,
    {
        assert(views(v@).subrange(0, i + 1).drop_last() =~= views(v@).subrange(0, i as int));
        if v[i].search_compatible {
            n += 1;
        }
        i += 1;
    }
    assert(views(v@).subrange(0, v.len() as int) =~= views(v@));
    n
}

/// The number of importable items.
fn count_importable(v: &Vec<SourceItem>) -> (n: usize)
    ensures
        n == count_where(views(v@), |x: ItemView| x.import_compatible),
{
    let mut n: usize = 0;
    let mut i: usize = 0;
    while i < v.len()
        invariant
            i <= v.len(),
            n <= i,
            n == count_where(views(v@).subrange(0, i as int), |x: ItemView| x.import_compatible),
        decreases v.len() - i,
    {
        assert(views(v@).subrange(0, i + 1).drop_last() =~= views(v@).subrange(0, i as int));
        if v[i].import_compatible {
            n += 1;
        }
        i += 1;
    }
    assert(views(v@).subrange(0, v.len() as int) =~= views(v@));
    n
}

/// The overview when no repository is installed.
pub fn empty_status() -> (st: SourceStatus)
    ensures
        !st.installed,
        st.repository_url@ == DEFAULT_SOURCE_URL@,
        st.total == 0,
        st.searchable == 0,
        st.importable == 0,
        st.sources@.len() == 0,
{
    SourceStatus {
        installed: false,
        repository_url: DEFAULT_SOURCE_URL.to_owned(),
        total: 0,
        searchable: 0,
        importable: 0,
        sources: Vec::new(),
    }
}

/// The result of looking a source up by name.
pub open spec fn spec_key_for_source_name(sources: Seq<BookSource>, name: Seq<char>) -> Result<Seq<char>, Seq<char>>
    decreases sources.len(),
{
    if sources.len() == 0 {
        Err("没有找到可补全的原书源："@ + name)
    } else if sources[0].name@ == name && spec_import_compatible(sources[0]) {
        Ok(spec_source_key(sources[0]))
    } else {
        spec_key_for_source_name(sources.drop_first(), name)
    }
}

/// The key of the first source named `name` whose books can be imported.
pub fn key_for_source_name(sources: &Vec<BookSource>, name: &str) -> (r: Result<String, String>)
    ensures
        crate::web::text_result_view(r) == spec_key_for_source_name(sources@, name@),
{
    let nv = chars_of(name);
    let mut i: usize = 0;
    assert(sources@.subrange(0, sources@.len() as int) =~= sources@);
    while i < sources.len()
        invariant
            i <= sources.len(),
            nv@ == name@,
            spec_key_for_source_name(sources@, name@)
                == spec_key_for_source_name(sources@.subrange(i as int, sources@.len() as int), name@),
        decreases sources.len() - i,
    {
        let s = &sources[i];
        let ghost rest = sources@.subrange(i as int, sources@.len() as int);
        assert(rest[0] == sources@[i as int]);
        assert(rest.drop_first() =~= sources@.subrange(i + 1, sources@.len() as int));
        let sn = chars_of(s.name.as_str());
        if crate::html::eq_chars(&sn, name) && source_item(s).import_compatible {
            return Ok(source_key(s));
        }
        i += 1;
    }
    let mut msg = "没有找到可补全的原书源：".to_owned();
    push_str(&mut msg, name);
    Err(msg)
}

/// The position of the first source whose key is `key`.
pub open spec fn spec_find_source(sources: Seq<BookSource>, key: Seq<char>, i: int) -> Option<usize>
    decreases sources.len() - i,
{
    if i < 0 || i >= sources.len() {
        None
    } else if spec_source_key(sources[i]) == key {
        Some(i as usize)
    } else {
        spec_find_source(sources, key, i + 1)
    }
}

/// The position of the first source whose key is `key`.
pub fn find_source(sources: &Vec<BookSource>, key: &str) -> (r: Option<usize>)
    ensures
        r == spec_find_source(sources@, key@, 0),
        r matches Some(i) ==> i < sources@.len(),
{
    let mut i: usize = 0;
    while i < sources.len()
        invariant
            i <= sources.len(),
            spec_find_source(sources@, key@, 0) == spec_find_source(sources@, key@, i as int),
        decreases sources.len() - i,
    {
        let k = source_key(&sources[i]);
        if crate::html::eq_chars(&chars_of(k.as_str()), key) {
            return Some(i);
        }
        i += 1;
    }
    None
}

/// The repository to install: the given address unless it is blank, else the
/// default one; it must be a valid HTTPS URL.
pub open spec fn spec_sync_target(repository_url: Option<Seq<char>>) -> Result<Seq<char>, Seq<char>> {
    let url = match repository_url {
        Some(u) => if crate::text::trim(u).len() > 0 { u } else { DEFAULT_SOURCE_URL@ },
        None => DEFAULT_SOURCE_URL@,
    };
    match parsed_url(url) {
        None => Err("书源地址无效"@),
        Some((_, scheme, _)) => if scheme != "https"@ {
            Err("书源地址必须使用 HTTPS"@)
        } else {
            Ok(url)
        },
    }
}

/// The address of the repository to install.
pub fn sync_target(repository_url: &Option<String>) -> (r: Result<String, String>)
    ensures
        crate::web::text_result_view(r) == spec_sync_target(crate::toc::opt_view(*repository_url)),
{
    let url = match repository_url {
        Some(u) => if crate::text::trim_exec(&chars_of(u.as_str())).len() > 0 {
            u.clone()
        } else {
            DEFAULT_SOURCE_URL.to_owned()
        },
        None => DEFAULT_SOURCE_URL.to_owned(),
    };
    match url_parse(url.as_str()) {
        None => Err("书源地址无效".to_owned()),
        Some(parts) => {
            if !crate::html::eq_chars(&chars_of(parts.scheme.as_str()), "https") {
                Err("书源地址必须使用 HTTPS".to_owned())
            } else {
                Ok(url)
            }
        },
    }
}

/// The largest repository file accepted: 64 MiB.
pub open spec fn max_repository_bytes() -> nat {
    64 * 1024 * 1024
}

/// A downloaded repository of `len` bytes is refused above 64 MiB.
pub fn check_repository_size(len: usize) -> (r: Result<(), String>)
    ensures
        r is Ok <==> len <= max_repository_bytes(),
        r matches Err(e) ==> e@ == "书源文件超过 64MB 安全上限"@,
{
    if len > 64 * 1024 * 1024 {
        Err("书源文件超过 64MB 安全上限".to_owned())
    } else {
        Ok(())
    }
}

/// A repository is refused when none of its sources has a name.
pub fn check_repository_sources(sources: &Vec<BookSource>) -> (r: Result<(), String>)
    ensures
        r is Ok <==> exists|i: int| 0 <= i < sources@.len() && sources@[i].name@.len() > 0,
        r matches Err(e) ==> e@ == "文件中没有识别到 Legado 书源"@,
{
    let mut i: usize = 0;
    while i < sources.len()
        invariant
            i <= sources@.len(),
            forall|k: int| 0 <= k < i ==> sources@[k].name@.len() == 0,
        decreases sources@.len() - i,
    {
        if !sources[i].name.as_str().is_empty() {
            return Ok(());
        }
        i += 1;
    }
    Err("文件中没有识别到 Legado 书源".to_owned())
}

// ---------------------------------------------------------------------------
// Sources from the text of a repository
// ---------------------------------------------------------------------------

/// The string member `key` of value `v`, or empty when `v` is not an object, has no
/// such member, or its value is not a string.
pub open spec fn str_member(doc: JsonTree, v: int, key: Seq<char>) -> Seq<char> {
    match value_get(doc, v, key) {
        Some(x) => if doc.kind(x as int) == JsonKind::Str {
            doc.text(x as int)
        } else {
            Seq::empty()
        },
        None => Seq::empty(),
    }
}

/// The string member `inner` of the member `outer` of value `v`, or empty.
pub open spec fn str_member2(doc: JsonTree, v: int, outer: Seq<char>, inner: Seq<char>) -> Seq<char> {
    match value_get(doc, v, outer) {
        Some(x) => str_member(doc, x as int, inner),
        None => Seq::empty(),
    }
}

/// The boolean member `key` of value `v`, or `default` when it is absent or not a
/// boolean.
pub open spec fn bool_member(doc: JsonTree, v: int, key: Seq<char>, default: bool) -> bool {
    match value_get(doc, v, key) {
        Some(x) => if doc.kind(x as int) == JsonKind::Bool {
            doc.text(x as int) == "true"@
        } else {
            default
        },
        None => default,
    }
}

/// The integer member `key` of value `v`, or `default` when it is absent, not a
/// number, or not an integer that fits in `i64`.
pub open spec fn i64_member(doc: JsonTree, v: int, key: Seq<char>, default: int) -> int {
    match value_get(doc, v, key) {
        Some(x) => if doc.kind(x as int) == JsonKind::Number {
            match parse_i64(doc.text(x as int)) {
                Some(n) => n,
                None => default,
            }
        } else {
            default
        },
        None => default,
    }
}

/// Source `s` is what the rules of this client read from value `v` of a repository.
pub open spec fn source_from(doc: JsonTree, v: int, s: BookSource) -> bool {
    &&& s.name@ == str_member(doc, v, "bookSourceName"@)
    &&& s.url@ == str_member(doc, v, "bookSourceUrl"@)
    &&& s.group@ == str_member(doc, v, "bookSourceGroup"@)
    &&& s.search_url@ == str_member(doc, v, "searchUrl"@)
    &&& s.header@ == str_member(doc, v, "header"@)
    &&& s.enabled == bool_member(doc, v, "enabled"@, true)
    &&& s.respond_time == i64_member(doc, v, "respondTime"@, 999_999)
    &&& s.search_book_list@ == str_member2(doc, v, "ruleSearch"@, "bookList"@)
    &&& s.search_name@ == str_member2(doc, v, "ruleSearch"@, "name"@)
    &&& s.search_book_url@ == str_member2(doc, v, "ruleSearch"@, "bookUrl"@)
    &&& s.search_author@ == str_member2(doc, v, "ruleSearch"@, "author"@)
    &&& s.search_intro@ == str_member2(doc, v, "ruleSearch"@, "intro"@)
    &&& s.search_cover_url@ == str_member2(doc, v, "ruleSearch"@, "coverUrl"@)
    &&& s.info_init@ == str_member2(doc, v, "ruleBookInfo"@, "init"@)
    &&& s.info_toc_url@ == str_member2(doc, v, "ruleBookInfo"@, "tocUrl"@)
    &&& s.toc_chapter_list@ == str_member2(doc, v, "ruleToc"@, "chapterList"@)
    &&& s.toc_chapter_name@ == str_member2(doc, v, "ruleToc"@, "chapterName"@)
    &&& s.toc_chapter_url@ == str_member2(doc, v, "ruleToc"@, "chapterUrl"@)
    &&& s.toc_next_url@ == str_member2(doc, v, "ruleToc"@, "nextTocUrl"@)
    &&& s.content_rule@ == str_member2(doc, v, "ruleContent"@, "content"@)
    &&& s.content_next_url@ == str_member2(doc, v, "ruleContent"@, "nextContentUrl"@)
}

/// The sources read from every element of the array a repository's text parses to.
pub open spec fn sources_match(text: Seq<char>, sources: Seq<BookSource>) -> bool {
    body_json(text) matches Ok((t, root)) && sources.len() == t.items(root).len() && forall|i: int|
        0 <= i < sources.len() ==> source_from(t, t.items(root)[i] as int, #[trigger] sources[i])
}

fn str_member_exec(doc: &JsonDoc, v: usize, key: &str) -> (r: String)
    requires
        v < doc.size(),
    ensures
        r@ == str_member(doc@, v as int, key@),
{
    proof {
        use_type_invariant(doc);
    }
    match value_get_exec(doc, v, &chars_of(key)) {
        Some(x) => if doc.kind_of(x) == JsonKind::Str {
            doc.text_of(x)
        } else {
            String::new()
        },
        None => String::new(),
    }
}

fn str_member2_exec(doc: &JsonDoc, v: usize, outer: &str, inner: &str) -> (r: String)
    requires
        v < doc.size(),
    ensures
        r@ == str_member2(doc@, v as int, outer@, inner@),
{
    proof {
        use_type_invariant(doc);
    }
    match value_get_exec(doc, v, &chars_of(outer)) {
        Some(x) => str_member_exec(doc, x, inner),
        None => String::new(),
    }
}

pub(crate) fn bool_member_exec(doc: &JsonDoc, v: usize, key: &str, default: bool) -> (r: bool)
    requires
        v < doc.size(),
    ensures
        r == bool_member(doc@, v as int, key@, default),
{
    proof {
        use_type_invariant(doc);
        reveal_strlit("true");
    }
    match value_get_exec(doc, v, &chars_of(key)) {
        Some(x) => if doc.kind_of(x) == JsonKind::Bool {
            crate::html::eq_chars(&chars_of(doc.text_of(x).as_str()), "true")
        } else {
            default
        },
        None => default,
    }
}

fn i64_member_exec(doc: &JsonDoc, v: usize, key: &str, default: i64) -> (r: i64)
    requires
        v < doc.size(),
    ensures
        r == i64_member(doc@, v as int, key@, default as int),
{
    proof {
        use_type_invariant(doc);
    }
    match value_get_exec(doc, v, &chars_of(key)) {
        Some(x) => if doc.kind_of(x) == JsonKind::Number {
            match parse_i64_exec(&chars_of(doc.text_of(x).as_str())) {
                Some(n) => n,
                None => default,
            }
        } else {
            default
        },
        None => default,
    }
}

fn source_at(doc: &JsonDoc, v: usize) -> (s: BookSource)
    requires
        v < doc.size(),
    ensures
        source_from(doc@, v as int, s),
{
    BookSource {
        name: str_member_exec(doc, v, "bookSourceName"),
        url: str_member_exec(doc, v, "bookSourceUrl"),
        group: str_member_exec(doc, v, "bookSourceGroup"),
        search_url: str_member_exec(doc, v, "searchUrl"),
        header: str_member_exec(doc, v, "header"),
        enabled: bool_member_exec(doc, v, "enabled", true),
        respond_time: i64_member_exec(doc, v, "respondTime", 999_999),
        search_book_list: str_member2_exec(doc, v, "ruleSearch", "bookList"),
        search_name: str_member2_exec(doc, v, "ruleSearch", "name"),
        search_book_url: str_member2_exec(doc, v, "ruleSearch", "bookUrl"),
        search_author: str_member2_exec(doc, v, "ruleSearch", "author"),
        search_intro: str_member2_exec(doc, v, "ruleSearch", "intro"),
        search_cover_url: str_member2_exec(doc, v, "ruleSearch", "coverUrl"),
        info_init: str_member2_exec(doc, v, "ruleBookInfo", "init"),
        info_toc_url: str_member2_exec(doc, v, "ruleBookInfo", "tocUrl"),
        toc_chapter_list: str_member2_exec(doc, v, "ruleToc", "chapterList"),
        toc_chapter_name: str_member2_exec(doc, v, "ruleToc", "chapterName"),
        toc_chapter_url: str_member2_exec(doc, v, "ruleToc", "chapterUrl"),
        toc_next_url: str_member2_exec(doc, v, "ruleToc", "nextTocUrl"),
        content_rule: str_member2_exec(doc, v, "ruleContent", "content"),
        content_next_url: str_member2_exec(doc, v, "ruleContent", "nextContentUrl"),
    }
}

/// The sources of a repository's text, one per element of the JSON array it holds;
/// or the parser's message when it is not one JSON array.
fn sources_of(text: &str) -> (r: Result<Vec<BookSource>, String>)
    ensures
        match json_array_error(text@) {
            Some(e) => r matches Err(m) && m@ == e,
            None => r matches Ok(v) && sources_match(text@, v@),
        },
{
    match json_array_check(text) {
        Err(e) => Err(e),
        Ok(()) => match parse_json(text) {
            Err(e) => Err(e),
            Ok((doc, root)) => {
                proof {
                    use_type_invariant(&doc);
                    doc.lemma_wf(root as int);
                }
                let items = doc.items_of(root);
                let mut out: Vec<BookSource> = Vec::new();
                let mut i: usize = 0;
                while i < items.len()
                    invariant
                        i <= items@.len(),
                        root < doc.size(),
                        items@ == doc@.items(root as int),
                        forall|k: int| 0 <= k < items@.len() ==> #[trigger] items@[k] < root,
                        out@.len() == i,
                        forall|k: int| 0 <= k < i ==> source_from(doc@, items@[k] as int, #[trigger] out@[k]),
                    decreases items@.len() - i,
                {
                    let s = source_at(&doc, items[i]);
                    out.push(s);
                    i += 1;
                }
                Ok(out)
            },
        },
    }
}

/// The sources of the installed repository's text; a text that is not one JSON
/// array is refused with the parser's message.
pub fn installed_sources(text: &str) -> (r: Result<Vec<BookSource>, String>)
    ensures
        match json_array_error(text@) {
            Some(e) => r matches Err(m) && m@ == "书源 JSON 无法解析: "@ + e,
            None => r matches Ok(v) && sources_match(text@, v@),
        },
{
    match sources_of(text) {
        Ok(v) => Ok(v),
        Err(e) => {
            let mut m = "书源 JSON 无法解析: ".to_owned();
            push_str(&mut m, e.as_str());
            Err(m)
        },
    }
}

/// The sources of a downloaded repository's text: refused with the parser's
/// message when it is not one JSON array, and when no source in it has a name.
pub fn downloaded_sources(text: &str) -> (r: Result<Vec<BookSource>, String>)
    ensures
        match json_array_error(text@) {
            Some(e) => r matches Err(m) && m@ == "不是有效的 Legado 书源数组: "@ + e,
            None => (r matches Ok(v) ==> sources_match(text@, v@)) && (body_json(text@) matches Ok((t, root)) && (r is Ok
                <==> exists|i: int| 0 <= i < t.items(root).len() && #[trigger] str_member(t, t.items(root)[i] as int, "bookSourceName"@).len() > 0))
                && (r matches Err(m) ==> m@ == "文件中没有识别到 Legado 书源"@),
        },
{
    match sources_of(text) {
        Ok(v) => {
            match check_repository_sources(&v) {
                Ok(()) => Ok(v),
                Err(e) => {
                    proof {
                        let t = body_json(text@)->Ok_0.0;
                        let root = body_json(text@)->Ok_0.1;
                        if exists|i: int| 0 <= i < t.items(root).len() && #[trigger] str_member(t, t.items(root)[i] as int, "bookSourceName"@).len() > 0 {
                            let i = choose|i: int| 0 <= i < t.items(root).len() && #[trigger] str_member(t, t.items(root)[i] as int, "bookSourceName"@).len() > 0;
                            assert(source_from(t, t.items(root)[i] as int, v@[i]));
                        }
                    }
                    Err(e)
                },
            }
        },
        Err(e) => {
            let mut m = "不是有效的 Legado 书源数组: ".to_owned();
            push_str(&mut m, e.as_str());
            Err(m)
        },
    }
}

} // verus!
