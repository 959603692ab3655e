use inkscope::json::{eval_json, parse_json, JsonKind};
use inkscope::search::search_answer;
use inkscope::source::{downloaded_sources, installed_sources, BookSource};
use inkscope::toc::{chapter_detail_of, chapter_text_of, toc_page_of, toc_start_of, TocWalk};
use inkscope::web::{request_plan_of, RequestBody};

fn json_source() -> BookSource {
    BookSource {
        name: "甲".to_string(),
        url: "https://example.com".to_string(),
        search_url: "/s?q={{key}}".to_string(),
        search_book_list: "$.data[*]".to_string(),
        search_name: "$.title".to_string(),
        search_book_url: "/book/{{$.id}}".to_string(),
        search_author: "$.author".to_string(),
        info_toc_url: "{{$.toc}}".to_string(),
        toc_chapter_list: "$.list[*]".to_string(),
        toc_chapter_name: "$.name".to_string(),
        toc_chapter_url: "/c/{{$.path}}".to_string(),
        toc_next_url: "$.next".to_string(),
        content_rule: "$.text".to_string(),
        ..BookSource::default()
    }
}

#[test]
fn texts_parse_into_documents() {
    let (doc, root) = parse_json(r#"{"b":[1,"x",null,true],"a":{"c":2.5}}"#).ok().expect("accepted");
    assert_eq!(root + 1, doc.len());
    assert_eq!(doc.kind_of(root), JsonKind::Object);
    assert_eq!(eval_json(&doc, root, "$.b[1]"), "x");
    assert_eq!(eval_json(&doc, root, "$.a.c"), "2.5");
    assert_eq!(eval_json(&doc, root, "$.b[3]"), "true");
    let err = parse_json("{oops").err().expect("refused");
    assert!(err.contains("line 1"), "{err}");
    assert!(parse_json("").is_err());
}

#[test]
fn search_answers_are_parsed_here() {
    let s = json_source();
    let body = r#"{"data":[{"title":"三体","id":7,"author":"刘慈欣"}]}"#;
    let found = search_answer(body, &s, "https://example.com/s?q=x").ok().expect("accepted");
    assert_eq!(found.len(), 1);
    assert_eq!(found[0].title, "三体");
    assert_eq!(found[0].book_url, "https://example.com/book/7");
    let bad = search_answer("{\"data\":", &s, "https://example.com/s").err().expect("refused");
    assert!(bad.starts_with("JSON: "), "{bad}");
}

#[test]
fn toc_pages_are_parsed_here() {
    let s = json_source();
    let body = r#"{"list":[{"name":"一","path":"1"},{"name":"二","path":"2"}],"next":"/toc?p=2"}"#;
    let (chapters, next) = toc_page_of(body, &s, "https://example.com/toc", 3, 10);
    assert_eq!(chapters.len(), 2);
    assert_eq!(chapters[0].position, 3);
    assert_eq!(chapters[1].chapter_url, "https://example.com/c/2");
    assert_eq!(next, Some("https://example.com/toc?p=2".to_string()));
    let (none, no_next) = toc_page_of("[broken", &s, "https://example.com/toc", 0, 10);
    assert!(none.is_empty());
    assert_eq!(no_next, None);
}

#[test]
fn toc_starts_and_walks_from_answers() {
    let s = json_source();
    assert_eq!(
        toc_start_of(&Ok(r#"{"toc":"7-toc"}"#.to_string()), &s, "https://example.com/book/7"),
        Ok("https://example.com/book/7-toc".to_string())
    );
    assert!(toc_start_of(&Ok("{bad".to_string()), &s, "https://example.com/book/7").is_err());
    let mut walk = TocWalk::for_preview("https://example.com/toc".to_string());
    walk.next_action();
    let page = r#"{"list":[{"name":"一","path":"1"}],"next":""}"#;
    assert_eq!(walk.page_answered(&Ok(page.to_string()), &s), Ok(()));
    let chapters = walk.into_chapters();
    assert_eq!(chapters.len(), 1);
    assert_eq!(chapters[0].title, "一");
}

#[test]
fn chapters_are_read_from_answers() {
    let s = json_source();
    let long = "这是一段足够长的章节正文，用来通过二十个字符的下限检查。";
    let page = format!(r#"{{"text":"{long}"}}"#);
    assert_eq!(chapter_text_of(&Ok(page.clone()), &s), Some(long.to_string()));
    assert_eq!(chapter_text_of(&Ok("{broken".to_string()), &s), None);
    let d = chapter_detail_of("一".to_string(), &Ok(page), &s).ok().expect("accepted");
    assert_eq!(d.content, long);
    assert!(chapter_detail_of("一".to_string(), &Err("超时".to_string()), &s).is_err());
}

#[test]
fn request_plans_read_raw_options_and_headers() {
    let plan = request_plan_of(&Some("{'method':'POST','body':'k=v'}".to_string()), "{'Referer':'https://a.com'}");
    assert!(plan.post);
    assert!(matches!(plan.body, Some(RequestBody::Text(t)) if t == "k=v"));
    assert_eq!(plan.headers, vec![("Referer".to_string(), "https://a.com".to_string())]);
    let plain = request_plan_of(&Some("{broken".to_string()), "");
    assert!(!plain.post);
    assert!(plain.body.is_none());
    assert!(plain.headers.is_empty());
}

#[test]
fn repositories_are_read_from_their_text() {
    let text = r#"[{"bookSourceName":"甲","bookSourceUrl":"https://a.com","enabled":false,"respondTime":120,
        "ruleSearch":{"bookList":"$.data","name":"$.t"},"ruleToc":{"chapterList":7}},
        {"bookSourceName":3,"respondTime":1.5},
        "not a source"]"#;
    let sources = installed_sources(text).ok().expect("parsed");
    assert_eq!(sources.len(), 3);
    assert_eq!(sources[0].name, "甲");
    assert_eq!(sources[0].url, "https://a.com");
    assert!(!sources[0].enabled);
    assert_eq!(sources[0].respond_time, 120);
    assert_eq!(sources[0].search_book_list, "$.data");
    assert_eq!(sources[0].search_name, "$.t");
    assert_eq!(sources[0].toc_chapter_list, "");
    assert_eq!(sources[1].name, "");
    assert!(sources[1].enabled);
    assert_eq!(sources[1].respond_time, 999_999);
    assert_eq!(sources[2].name, "");
    assert_eq!(downloaded_sources(text).ok().expect("parsed").len(), 3);

    let not_array = installed_sources(r#"{"bookSourceName":"甲"}"#).err().expect("refused");
    assert!(not_array.starts_with("书源 JSON 无法解析: "), "{not_array}");
    let broken = downloaded_sources("[{").err().expect("refused");
    assert!(broken.starts_with("不是有效的 Legado 书源数组: "), "{broken}");
    assert_eq!(downloaded_sources(r#"[{"bookSourceName":""}]"#).err().expect("refused"), "文件中没有识别到 Legado 书源");
}
