use inkscope::json::JsonDoc;
use inkscope::source::BookSource;
use inkscope::toc::{
    assemble_book, chapter_detail, chapter_text, clean_preview_text, page_content, source_for_chapter,
    source_for_import, source_for_preview, toc_page, toc_start, FetchedChapter, TocAction, TocWalk,
};

fn toc_source() -> BookSource {
    BookSource {
        name: "甲".to_string(),
        url: "https://example.com".to_string(),
        search_url: "/s?q={{key}}".to_string(),
        search_book_list: "$.data[*]".to_string(),
        search_name: "$.title".to_string(),
        search_book_url: "/book/{{$.id}}".to_string(),
        toc_chapter_list: "$.list[*]".to_string(),
        toc_chapter_name: "$.name".to_string(),
        toc_chapter_url: "{{$.path}}".to_string(),
        toc_next_url: "$.next".to_string(),
        content_rule: "id.content@html".to_string(),
        ..BookSource::default()
    }
}

/// A TOC page: `{"list":[{"name":..,"path":..},..],"next":next}`.
fn toc_doc(chapters: &[(&str, &str)], next: &str) -> (JsonDoc, usize) {
    let mut doc = JsonDoc::new();
    let mut items = Vec::new();
    for (name, path) in chapters {
        let n = doc.add_string(name.to_string());
        let p = doc.add_string(path.to_string());
        items.push(doc.add_object(vec!["name".to_string(), "path".to_string()], vec![n, p], "{}".to_string()));
    }
    let list = doc.add_array(items, "[]".to_string());
    let nx = doc.add_string(next.to_string());
    let root = doc.add_object(vec!["list".to_string(), "next".to_string()], vec![list, nx], "{}".to_string());
    (doc, root)
}

#[test]
fn a_toc_page_lists_its_chapters_and_next_page() {
    let (doc, root) = toc_doc(&[("第一章", "c1"), ("第二章", ""), ("第三章", "c3")], "\n /book/toc2 \n");
    let (chapters, next) = toc_page("{}", &Some((doc, root)), &toc_source(), "https://example.com/book/toc", 5, 10);
    let got: Vec<(usize, &str, &str)> =
        chapters.iter().map(|c| (c.position, c.title.as_str(), c.chapter_url.as_str())).collect();
    assert_eq!(got, vec![(5, "第一章", "https://example.com/book/c1"), (7, "第三章", "https://example.com/book/c3")]);
    assert_eq!(next, Some("https://example.com/book/toc2".to_string()));
}

#[test]
fn a_toc_page_takes_at_most_its_limit() {
    let (doc, root) = toc_doc(&[("第一章", "c1"), ("第二章", "c2"), ("第三章", "c3")], "");
    let (chapters, next) = toc_page("{}", &Some((doc, root)), &toc_source(), "https://example.com/book/toc", 0, 2);
    assert_eq!(chapters.len(), 2);
    assert_eq!(next, None);
    let (none, _) = toc_page("[broken", &None, &toc_source(), "https://example.com/book/toc", 0, 2);
    assert!(none.is_empty());
}

#[test]
fn an_html_toc_page_is_read_too() {
    let s = BookSource {
        toc_chapter_list: "class.chapter".to_string(),
        toc_chapter_name: "tag.a.0@text".to_string(),
        toc_chapter_url: "tag.a.0@href".to_string(),
        toc_next_url: "id.next@href".to_string(),
        ..toc_source()
    };
    let body = r#"<ol><li class="chapter"><a href="1.html">一</a></li><li class="chapter"><a href="2.html">二</a></li></ol><a id="next" href="toc2.html">下一页</a>"#;
    let (chapters, next) = toc_page(body, &None, &s, "https://example.com/book/toc.html", 0, usize::MAX);
    assert_eq!(chapters.len(), 2);
    assert_eq!(chapters[1].position, 1);
    assert_eq!(chapters[1].title, "二");
    assert_eq!(chapters[1].chapter_url, "https://example.com/book/2.html");
    assert_eq!(next, Some("https://example.com/book/toc2.html".to_string()));
}

#[test]
fn the_walk_follows_pages_and_stops_at_a_visited_one() {
    let s = toc_source();
    let mut w = TocWalk::for_preview("https://example.com/book/toc".to_string());
    assert!(matches!(w.next_action(), TocAction::Fetch(u) if u == "https://example.com/book/toc"));
    let (d1, r1) = toc_doc(&[("第一章", "c1"), ("空", ""), ("第三章", "c3")], "toc2");
    assert_eq!(w.page_fetched(&Ok("{}".to_string()), &Some((d1, r1)), &s), Ok(()));
    assert!(matches!(w.next_action(), TocAction::Fetch(u) if u == "https://example.com/book/toc2"));
    let (d2, r2) = toc_doc(&[("第四章", "c4")], "toc");
    assert_eq!(w.page_fetched(&Ok("{}".to_string()), &Some((d2, r2)), &s), Ok(()));
    assert!(matches!(w.next_action(), TocAction::Done));
    let chapters = w.into_chapters();
    let got: Vec<(usize, &str)> = chapters.iter().map(|c| (c.position, c.title.as_str())).collect();
    assert_eq!(got, vec![(0, "第一章"), (2, "第三章"), (2, "第四章")]);
}

#[test]
fn the_walk_reports_failures() {
    let s = toc_source();
    let mut w = TocWalk::for_extract("https://example.com/book/toc".to_string(), 0);
    assert!(matches!(w.next_action(), TocAction::Fetch(_)));
    assert_eq!(w.page_fetched(&Err("请求超时".to_string()), &None, &s), Err("目录第 1 页读取失败: 请求超时".to_string()));
    let mut empty = TocWalk::for_preview("https://example.com/book/toc".to_string());
    assert!(matches!(empty.next_action(), TocAction::Fetch(_)));
    assert_eq!(empty.page_fetched(&Ok("{".to_string()), &None, &s), Ok(()));
    assert!(matches!(empty.next_action(), TocAction::Fail(e) if e == "书源返回了空目录，规则可能已经失效"));
}

#[test]
fn an_import_stops_at_its_limit() {
    let s = toc_source();
    let mut w = TocWalk::for_extract("https://example.com/book/toc".to_string(), 1);
    assert!(matches!(w.next_action(), TocAction::Fetch(_)));
    let (d1, r1) = toc_doc(&[("第一章", "c1"), ("第二章", "c2")], "toc2");
    assert_eq!(w.page_fetched(&Ok("{}".to_string()), &Some((d1, r1)), &s), Ok(()));
    assert!(matches!(w.next_action(), TocAction::Done));
    assert_eq!(w.into_chapters().len(), 1);
}

#[test]
fn the_toc_starts_where_the_book_page_says() {
    let s = toc_source();
    assert_eq!(
        toc_start(&Err("超时".to_string()), &Err(String::new()), &s, "https://example.com/book/7"),
        Err("书籍详情读取失败: 超时".to_string())
    );
    assert_eq!(
        toc_start(&Ok("<html></html>".to_string()), &Err(String::new()), &s, "https://example.com/book/7"),
        Ok("https://example.com/book/7".to_string())
    );
    let mut doc = JsonDoc::new();
    let id = doc.add_number("7".to_string());
    let book = doc.add_object(vec!["id".to_string()], vec![id], "{}".to_string());
    let list = doc.add_array(vec![book], "[]".to_string());
    let root = doc.add_object(vec!["data".to_string()], vec![list], "{}".to_string());
    let json_source = BookSource { info_init: "$.data[0]".to_string(), info_toc_url: "/toc/{{$.id}}".to_string(), ..toc_source() };
    assert_eq!(
        toc_start(&Ok("{}".to_string()), &Ok((doc, root)), &json_source, "https://example.com/book/7"),
        Ok("https://example.com/toc/7".to_string())
    );
    assert_eq!(
        toc_start(&Ok("{bad".to_string()), &Err("key must be a string".to_string()), &json_source, "https://example.com/book/7"),
        Err("key must be a string".to_string())
    );
    let html_source = BookSource { info_toc_url: "class.toc@href".to_string(), ..toc_source() };
    assert_eq!(
        toc_start(
            &Ok(r#"<div><a class="toc" href="list.html">目录</a></div>"#.to_string()),
            &Err(String::new()),
            &html_source,
            "https://example.com/book/7"
        ),
        Ok("https://example.com/book/list.html".to_string())
    );
}

const CHAPTER_PAGE: &str = r#"<div id="content">第一段文字写得很长很长很长。<br>第二段也写得很长很长很长很长。<p>第三段&amp;完</p></div>"#;

#[test]
fn chapters_are_read_for_preview() {
    let s = toc_source();
    let d = chapter_detail("第一章".to_string(), &Ok(CHAPTER_PAGE.to_string()), &None, &s).unwrap();
    assert_eq!(d.title, "第一章");
    assert_eq!(d.content, "第一段文字写得很长很长很长。\n第二段也写得很长很长很长很长。第三段&完");
    assert_eq!(d.character_count, d.content.chars().count());
    assert!(matches!(
        chapter_detail("x".to_string(), &Err("超时".to_string()), &None, &s),
        Err(e) if e == "章节读取失败: 超时"
    ));
    let short = BookSource { content_rule: "id.none@text".to_string(), ..toc_source() };
    assert!(matches!(
        chapter_detail("x".to_string(), &Ok(CHAPTER_PAGE.to_string()), &None, &short),
        Err(e) if e == "章节正文为空，书源规则可能失效"
    ));
}

#[test]
fn chapter_texts_need_more_than_twenty_characters() {
    let s = toc_source();
    assert!(chapter_text(&Ok(CHAPTER_PAGE.to_string()), &None, &s).is_some());
    assert_eq!(chapter_text(&Err("超时".to_string()), &None, &s), None);
    let short = r#"<div id="content">太短了</div>"#;
    assert_eq!(page_content(short, &None, &s), "太短了");
    assert_eq!(chapter_text(&Ok(short.to_string()), &None, &s), None);
}

#[test]
fn preview_text_is_cleaned() {
    assert_eq!(clean_preview_text("  <P>一</P><BR/>二<br >三&lt;四&gt;  "), "一\n\n二\n三<四>");
}

#[test]
fn sources_are_checked_before_use() {
    let searchable = BookSource { toc_chapter_list: String::new(), ..toc_source() };
    let sources = vec![searchable, BookSource { name: "乙".to_string(), ..toc_source() }];
    assert_eq!(source_for_import(&sources, "乙|https://example.com"), Ok(1));
    assert_eq!(source_for_import(&sources, "甲|https://example.com"), Err("甲：可搜索，正文规则暂不兼容".to_string()));
    assert_eq!(source_for_import(&sources, "丙|x"), Err("书源已不存在，请重新同步".to_string()));
    assert_eq!(source_for_preview(&sources, "甲|https://example.com"), Err("该书源的目录或正文规则当前不兼容".to_string()));
    assert_eq!(source_for_preview(&sources, "乙|https://example.com"), Ok(1));
    assert_eq!(source_for_chapter(&sources, "甲|https://example.com"), Ok(0));
    assert_eq!(source_for_chapter(&sources, "丙|x"), Err("书源已不存在".to_string()));
}

fn fetched(position: usize, title: &str, text: Option<&str>) -> FetchedChapter {
    FetchedChapter { position, title: title.to_string(), text: text.map(|t| t.to_string()) }
}

#[test]
fn an_imported_book_keeps_the_toc_order() {
    let t = "这一章的正文足够长，可以被当作真正的章节内容来保存。";
    let chapters = vec![
        fetched(2, "第三章", Some(t)),
        fetched(0, "第一章", Some(t)),
        fetched(1, "第二章", None),
        fetched(2, "第三章续", Some(t)),
    ];
    let book = assemble_book("书".to_string(), "https://example.com/book/7".to_string(), "甲".to_string(), &chapters).unwrap();
    assert_eq!(book.content, format!("\n\n# 第一章\n\n{t}\n\n# 第三章\n\n{t}\n\n# 第三章续\n\n{t}"));
    assert_eq!(book.chapter_count, 3);
    assert_eq!(book.failed_chapters, 1);
    assert_eq!(book.title, "书");
    assert_eq!(book.source_uri, "https://example.com/book/7");
    assert_eq!(book.source_name, "甲");
    let thin = vec![fetched(0, "一", Some("短")), fetched(1, "二", None)];
    assert!(matches!(
        assemble_book("书".to_string(), "u".to_string(), "甲".to_string(), &thin),
        Err(e) if e == "章节正文均未能读取，书源规则可能失效或需要登录/JavaScript"
    ));
}
