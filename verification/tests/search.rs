use inkscope::json::JsonDoc;
use inkscope::search::{
    check_search, chosen_sources, merge_answers, search_html, search_json, search_results, search_url, SearchResult,
    SourceAnswer,
};
use inkscope::source::BookSource;

fn json_source(name: &str) -> BookSource {
    BookSource {
        name: name.to_string(),
        url: "https://example.com".to_string(),
        search_url: "/search?q={{key}}&p={{page}}".to_string(),
        search_book_list: "$.data[*]".to_string(),
        search_name: "$.title".to_string(),
        search_book_url: "/book/{{$.id}}".to_string(),
        search_author: "$.author".to_string(),
        search_intro: "$.missing".to_string(),
        search_cover_url: "$.missing".to_string(),
        ..BookSource::default()
    }
}

/// `{"data":[{"author":"作者","id":7,"title":"三体"},{"author":"无名","id":8,"title":""}]}`
fn books_doc() -> (JsonDoc, usize) {
    let mut doc = JsonDoc::new();
    let a1 = doc.add_string("作者".to_string());
    let i1 = doc.add_number("7".to_string());
    let t1 = doc.add_string("三体".to_string());
    let b1 = doc.add_object(
        vec!["author".to_string(), "id".to_string(), "title".to_string()],
        vec![a1, i1, t1],
        r#"{"author":"作者","id":7,"title":"三体"}"#.to_string(),
    );
    let a2 = doc.add_string("无名".to_string());
    let i2 = doc.add_number("8".to_string());
    let t2 = doc.add_string("".to_string());
    let b2 = doc.add_object(
        vec!["author".to_string(), "id".to_string(), "title".to_string()],
        vec![a2, i2, t2],
        r#"{"author":"无名","id":8,"title":""}"#.to_string(),
    );
    let list = doc.add_array(vec![b1, b2], "[]".to_string());
    let root = doc.add_object(vec!["data".to_string()], vec![list], "{}".to_string());
    (doc, root)
}

fn result(title: &str, author: &str, url: &str, importable: bool) -> SearchResult {
    SearchResult {
        source_key: "k".to_string(),
        source_name: "n".to_string(),
        title: title.to_string(),
        author: author.to_string(),
        intro: String::new(),
        cover_url: String::new(),
        book_url: url.to_string(),
        import_compatible: importable,
    }
}

#[test]
fn search_requests_are_checked() {
    let one = vec!["a".to_string()];
    assert_eq!(check_search("  ", &one), Err("请输入小说名".to_string()));
    assert_eq!(check_search("三体", &vec![]), Err("至少选择一个书源".to_string()));
    let many: Vec<String> = (0..61).map(|i| i.to_string()).collect();
    assert_eq!(check_search("三体", &many), Err("一次最多搜索 60 个书源".to_string()));
    let sixty: Vec<String> = (0..60).map(|i| i.to_string()).collect();
    assert_eq!(check_search("三体", &sixty), Ok(()));
}

#[test]
fn chosen_sources_keep_the_first_of_each_key() {
    let sources = vec![json_source("甲"), json_source("乙"), json_source("甲"), json_source("丙")];
    let keys = vec!["丙|https://example.com".to_string(), "甲|https://example.com".to_string(), "丁|x".to_string()];
    assert_eq!(chosen_sources(&sources, &keys), vec![0, 3]);
}

#[test]
fn search_urls_are_rendered_and_resolved() {
    let s = json_source("甲");
    assert_eq!(search_url(&s, "三体"), Ok("https://example.com/search?q=%E4%B8%89%E4%BD%93&p=1".to_string()));
    let js = BookSource { search_url: "@js:run()".to_string(), ..json_source("乙") };
    assert_eq!(search_url(&js, "三体"), Err("包含 JavaScript 规则".to_string()));
}

#[test]
fn json_answers_give_results_with_titles() {
    let (doc, root) = books_doc();
    let s = json_source("甲");
    let url = "https://example.com/search?q=x";
    let r = search_json(&doc, root, &s, url);
    assert_eq!(r.len(), 1);
    assert_eq!(r[0].title, "三体");
    assert_eq!(r[0].author, "作者");
    assert_eq!(r[0].intro, "");
    assert_eq!(r[0].book_url, "https://example.com/book/7");
    assert_eq!(r[0].cover_url, "https://example.com/search?q=x");
    assert_eq!(r[0].source_key, "甲|https://example.com");
    assert_eq!(r[0].source_name, "甲");
    assert!(!r[0].import_compatible);
}

#[test]
fn answers_are_read_by_their_kind() {
    let (doc, root) = books_doc();
    let s = json_source("甲");
    let ok = search_results(" {\"data\":[]}", &Ok((doc, root)), &s, "https://example.com/s").unwrap();
    assert_eq!(ok.len(), 1);
    let bad = search_results("[oops", &Err("expected value at line 1 column 2".to_string()), &s, "https://example.com/s");
    assert!(matches!(bad, Err(e) if e == "JSON: expected value at line 1 column 2"));
    let html_source = BookSource {
        search_book_list: "class.book".to_string(),
        search_name: "tag.a.0@text".to_string(),
        search_book_url: "tag.a.0@href".to_string(),
        search_author: "class.author@text".to_string(),
        ..json_source("乙")
    };
    let body = r#"<ul><li class="book"><a href="/b/1">第一本</a><span class="author">甲</span></li><li class="book"><a href="/b/2">第二本</a></li><li class="book"><span>无链接</span></li></ul>"#;
    let r = search_results(body, &Err(String::new()), &html_source, "https://example.com/s").unwrap();
    assert_eq!(r.len(), 2);
    assert_eq!(r[0].title, "第一本");
    assert_eq!(r[0].author, "甲");
    assert_eq!(r[0].book_url, "https://example.com/b/1");
    assert_eq!(r[1].title, "第二本");
    assert_eq!(r[1].author, "");
    let direct = search_html(body, &html_source, "https://example.com/s");
    assert_eq!(direct.len(), 2);
}

#[test]
fn at_most_twenty_results_per_source() {
    let mut doc = JsonDoc::new();
    let mut books = Vec::new();
    for i in 0..25 {
        let t = doc.add_string(format!("书{i}"));
        let id = doc.add_number(i.to_string());
        books.push(doc.add_object(vec!["id".to_string(), "title".to_string()], vec![id, t], "{}".to_string()));
    }
    let list = doc.add_array(books, "[]".to_string());
    let root = doc.add_object(vec!["data".to_string()], vec![list], "{}".to_string());
    let r = search_json(&doc, root, &json_source("甲"), "https://example.com/");
    assert_eq!(r.len(), 20);
    assert_eq!(r[19].title, "书19");
}

#[test]
fn merged_results_rank_titles_and_drop_repeats() {
    let answers = vec![
        SourceAnswer {
            name: "甲".to_string(),
            outcome: Ok(vec![
                result("球状闪电", "刘", "/1", true),
                result("三体", "刘", "/2", false),
                result("三体", "刘", "/2", true),
            ]),
        },
        SourceAnswer { name: "乙".to_string(), outcome: Err("请求超时".to_string()) },
        SourceAnswer {
            name: "丙".to_string(),
            outcome: Ok(vec![result("三体全集", "刘", "/3", true), result("三体", "刘", "/2", true)]),
        },
    ];
    let r = merge_answers(answers, " 三体 ", 3);
    assert_eq!(r.searched_sources, 3);
    assert_eq!(r.failed_sources, vec!["乙：请求超时".to_string()]);
    let got: Vec<(&str, &str, bool)> = r.results.iter().map(|x| (x.title.as_str(), x.book_url.as_str(), x.import_compatible)).collect();
    assert_eq!(
        got,
        vec![("三体", "/2", true), ("三体全集", "/3", true), ("三体", "/2", true), ("球状闪电", "/1", true)]
    );
}
