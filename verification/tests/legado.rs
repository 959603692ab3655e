use inkscope::html::{eval_html, select_html};
use inkscope::json::{eval_json, json_select, JsonDoc};
use inkscope::outside::HtmlPage;
use inkscope::rules::{has_script, parse_segment, split_request, split_rule};
use inkscope::source::{
    build_status, check_repository_size, check_repository_sources, empty_status, find_source, key_for_source_name,
    source_item, source_key, sync_target, BookSource,
};
use inkscope::web::{
    absolute, fetch_target, http_failure, json_quotes, render_url, request_plan, RequestBody, DEFAULT_SOURCE_URL,
};

/// `{"data":[{"id":7,"title":"真实书名","author":"作者"}]}`, with its root.
fn sample_doc() -> (JsonDoc, usize) {
    let mut doc = JsonDoc::new();
    let author = doc.add_string("作者".to_string());
    let id = doc.add_number("7".to_string());
    let title = doc.add_string("真实书名".to_string());
    let book = doc.add_object(
        vec!["author".to_string(), "id".to_string(), "title".to_string()],
        vec![author, id, title],
        r#"{"author":"作者","id":7,"title":"真实书名"}"#.to_string(),
    );
    let list = doc.add_array(vec![book], r#"[{"author":"作者","id":7,"title":"真实书名"}]"#.to_string());
    let root = doc.add_object(
        vec!["data".to_string()],
        vec![list],
        r#"{"data":[{"author":"作者","id":7,"title":"真实书名"}]}"#.to_string(),
    );
    (doc, root)
}

fn searchable_source(name: &str) -> BookSource {
    BookSource {
        name: name.to_string(),
        url: "https://example.com".to_string(),
        search_url: "/search?q={{key}}&p={{page}}".to_string(),
        search_book_list: "$.data[*]".to_string(),
        search_name: "$.title".to_string(),
        search_book_url: "/book/{{$.id}}".to_string(),
        ..BookSource::default()
    }
}

fn importable_source(name: &str) -> BookSource {
    BookSource {
        toc_chapter_list: "$.list[*]".to_string(),
        toc_chapter_name: "$.name".to_string(),
        toc_chapter_url: "$.url".to_string(),
        content_rule: "$.content".to_string(),
        ..searchable_source(name)
    }
}

#[test]
fn parses_common_json_rules() {
    let (doc, root) = sample_doc();
    let books = json_select(&doc, root, "$.data[*]");
    assert_eq!(books.len(), 1);
    assert_eq!(eval_json(&doc, books[0], "$.title"), "真实书名");
    assert_eq!(render_url("/book/{{$.id}}", &doc, Some(books[0]), "", 1), "/book/7");
}

#[test]
fn parses_common_legado_html_chain() {
    let page = HtmlPage::parse(r#"<div class="item"><h3><a href="/book/7">真实书名</a></h3><p>作者甲</p></div>"#);
    let items = select_html(&page, vec![page.root()], "class.item");
    assert_eq!(items.len(), 1);
    assert_eq!(eval_html(&page, items[0], "tag.h3.0@tag.a.0@text"), "真实书名");
    assert_eq!(eval_html(&page, items[0], "tag.h3.0@tag.a.0@href"), "/book/7");
}

#[test]
fn marks_javascript_sources_incompatible() {
    let source = BookSource {
        name: "脚本源".to_string(),
        url: "https://example.com".to_string(),
        search_url: "@js:buildUrl(key)".to_string(),
        search_book_list: "$.data".to_string(),
        search_name: "$.name".to_string(),
        search_book_url: "$.url".to_string(),
        ..BookSource::default()
    };
    assert!(!source_item(&source).search_compatible);
}

#[test]
fn javascript_source_gives_its_reason() {
    let source = BookSource {
        name: "脚本源".to_string(),
        url: "https://example.com".to_string(),
        search_url: "@js:buildUrl(key)".to_string(),
        ..BookSource::default()
    };
    let item = source_item(&source);
    assert!(!item.import_compatible);
    assert_eq!(item.reason, "包含 JavaScript 规则");
    assert_eq!(item.key, "脚本源|https://example.com");
}

#[test]
fn reasons_of_sources() {
    assert_eq!(source_item(&importable_source("甲")).reason, "可搜索并自动抓取");
    assert_eq!(source_item(&searchable_source("乙")).reason, "可搜索，正文规则暂不兼容");
    let paged = BookSource { content_next_url: "$.next".to_string(), ..importable_source("丙") };
    let item = source_item(&paged);
    assert!(item.search_compatible && !item.import_compatible);
    let disabled = BookSource { enabled: false, content_next_url: "$.next".to_string(), ..importable_source("丁") };
    assert_eq!(source_item(&disabled).reason, "章节正文分页规则暂不兼容");
    let xpath = BookSource { search_book_list: "//div".to_string(), ..searchable_source("戊") };
    assert_eq!(source_item(&xpath).reason, "规则类型暂不兼容");
    let bad_url = BookSource { url: "not a url".to_string(), ..searchable_source("己") };
    assert!(!source_item(&bad_url).search_compatible);
    let fragment = BookSource { url: "https://example.com#登录".to_string(), ..searchable_source("庚") };
    assert!(source_item(&fragment).search_compatible);
}

#[test]
fn scripts_are_recognised() {
    assert!(has_script("@JS:run()"));
    assert!(has_script("a <js>x</js>"));
    assert!(has_script("java.ajax(url)"));
    assert!(has_script("EVAL(x)"));
    assert!(has_script("@get:{a}"));
    assert!(has_script("@put:{a}"));
    assert!(!has_script("$.data[*].name"));
}

#[test]
fn rules_split_at_their_markers() {
    assert_eq!(split_rule("$.a##\\s+## "), ("$.a".to_string(), Some(("\\s+".to_string(), " ".to_string()))));
    assert_eq!(split_rule("$.a##x"), ("$.a".to_string(), Some(("x".to_string(), "".to_string()))));
    assert_eq!(split_rule("$.a##x##y##z"), ("$.a".to_string(), Some(("x".to_string(), "y##z".to_string()))));
    assert_eq!(split_rule("$.a"), ("$.a".to_string(), None));
    assert_eq!(split_request("/s?q=1,{\"method\":\"POST\"}"), ("/s?q=1".to_string(), Some("{\"method\":\"POST\"}".to_string())));
    assert_eq!(split_request("/s,[{\"a\":1}]"), ("/s".to_string(), Some("[{\"a\":1}]".to_string())));
    assert_eq!(split_request("/s,x"), ("/s,x".to_string(), None));
    assert_eq!(parse_segment("tag.a.0"), ("tag.a".to_string(), Some(0)));
    assert_eq!(parse_segment("class.item.-1"), ("class.item".to_string(), Some(-1)));
    assert_eq!(parse_segment("class.item"), ("class.item".to_string(), None));
}

#[test]
fn json_rules_select_and_join() {
    let (doc, root) = sample_doc();
    assert_eq!(eval_json(&doc, root, "$..title"), "真实书名");
    assert_eq!(eval_json(&doc, root, "$.data[0].id"), "7");
    assert_eq!(eval_json(&doc, root, "$.missing||$.data[0].author"), "作者");
    assert_eq!(eval_json(&doc, root, "$.data[0].author&&$.data[0].title"), "真实书名");
    assert_eq!(eval_json(&doc, root, "{{$.data[0].title}}·{{$.data[0].author}}"), "真实书名·作者");
    assert_eq!(eval_json(&doc, root, "$.data[0].title##书名##名"), "真实名");
    assert_eq!(json_select(&doc, root, "$.nothing").len(), 0);
}

#[test]
fn links_resolve_against_their_page() {
    assert_eq!(absolute("https://example.com/a/b.html#top", "c.html"), "https://example.com/a/c.html");
    assert_eq!(absolute("https://example.com/a/", "/book/7"), "https://example.com/book/7");
    assert_eq!(absolute("https://example.com/", "https://other.org/x"), "https://other.org/x");
    assert_eq!(absolute("not a base", "rel"), "rel");
    assert_eq!(absolute("https://example.com/", "/s,{\"method\":\"POST\"}"), "https://example.com/s,{\"method\":\"POST\"}");
}

#[test]
fn search_templates_encode_the_key() {
    let doc = JsonDoc::new();
    assert_eq!(render_url("/s?q={{key}}&p={{page}}", &doc, None, "三体 x", 2), "/s?q=%E4%B8%89%E4%BD%93%20x&p=2");
    assert_eq!(
        render_url("/s,{\"body\":\"k={{key}}\"}", &doc, None, "三体", 1),
        "/s,{\"body\":\"k=三体\"}"
    );
}

#[test]
fn requests_are_guarded() {
    assert_eq!(fetch_target("https://Example.COM/x"), Ok("example.com".to_string()));
    assert_eq!(fetch_target("ftp://example.com/x"), Err("书源只允许 HTTP/HTTPS 请求".to_string()));
    assert_eq!(fetch_target("http://localhost:8080/"), Err("已阻止书源访问本机地址".to_string()));
    assert_eq!(fetch_target("http://a.localhost/"), Err("已阻止书源访问本机地址".to_string()));
    assert_eq!(fetch_target("http://0.0.0.0/"), Err("已阻止书源访问本机地址".to_string()));
    assert_eq!(fetch_target("::"), Err("书源生成了无效 URL".to_string()));
}

#[test]
fn private_network_addresses_are_refused() {
    let refused = Err("已阻止书源访问内网地址".to_string());
    for url in [
        "http://10.0.0.1/",
        "http://127.0.0.1:8080/x",
        "http://192.168.1.1/",
        "https://169.254.1.1/",
        "http://172.16.0.1/",
        "http://172.31.255.255/",
        "http://0x7f.1/",
        "http://2130706433/",
    ] {
        assert_eq!(fetch_target(url), refused, "{url}");
    }
    for (url, host) in [
        ("http://172.32.0.1/", "172.32.0.1"),
        ("http://8.8.8.8/", "8.8.8.8"),
        ("http://192.169.0.1/", "192.169.0.1"),
        ("http://10.example.com/", "10.example.com"),
        ("http://[::1]/x", "[::1]"),
        ("http://[fe80::1]/", "[fe80::1]"),
    ] {
        assert_eq!(fetch_target(url), Ok(host.to_string()), "{url}");
    }
}

#[test]
fn http_failures_are_explained() {
    assert_eq!(http_failure(404, "404 Not Found"), "站点已失效或搜索地址已改版（404）");
    assert_eq!(http_failure(403, "403 Forbidden"), "站点拒绝访问，可能需要登录或验证（403）");
    assert_eq!(http_failure(429, "429 Too Many Requests"), "站点请求过于频繁（429）");
    assert_eq!(http_failure(500, "500 Internal Server Error"), "站点返回 HTTP 500 Internal Server Error");
}

#[test]
fn status_lists_each_key_once_in_order() {
    let slow = BookSource { respond_time: 3000, ..importable_source("慢") };
    let fast = BookSource { respond_time: 200, ..importable_source("快") };
    let unmeasured = BookSource { respond_time: 10, ..importable_source("未测") };
    let search_only = searchable_source("仅搜");
    let duplicate = BookSource { respond_time: 1, ..importable_source("快") };
    let broken = BookSource { name: "坏".to_string(), ..BookSource::default() };
    let sources = vec![search_only, slow, broken, fast, unmeasured, duplicate];
    let st = build_status(&sources, "https://repo.example/sources.json".to_string());
    assert!(st.installed);
    assert_eq!(st.total, 6);
    let names: Vec<&str> = st.sources.iter().map(|s| s.name.as_str()).collect();
    assert_eq!(names, vec!["快", "慢", "未测", "仅搜", "坏"]);
    assert_eq!(st.sources[0].response_time, 200);
    assert_eq!(st.searchable, 4);
    assert_eq!(st.importable, 3);
    assert!(st.importable <= st.searchable);
}

#[test]
fn an_empty_status_names_the_default_repository() {
    let st = empty_status();
    assert!(!st.installed);
    assert_eq!(st.repository_url, DEFAULT_SOURCE_URL);
    assert_eq!(st.total, 0);
    assert!(st.sources.is_empty());
}

#[test]
fn sources_are_found_by_key_and_name() {
    let sources = vec![searchable_source("甲"), importable_source("乙"), importable_source("乙")];
    assert_eq!(find_source(&sources, "乙|https://example.com"), Some(1));
    assert_eq!(find_source(&sources, "丙|https://example.com"), None);
    assert_eq!(source_key(&sources[0]), "甲|https://example.com");
    assert_eq!(key_for_source_name(&sources, "乙"), Ok("乙|https://example.com".to_string()));
    assert_eq!(key_for_source_name(&sources, "甲"), Err("没有找到可补全的原书源：甲".to_string()));
}

#[test]
fn repositories_are_checked() {
    assert_eq!(sync_target(&None), Ok(DEFAULT_SOURCE_URL.to_string()));
    assert_eq!(sync_target(&Some("   ".to_string())), Ok(DEFAULT_SOURCE_URL.to_string()));
    assert_eq!(sync_target(&Some("http://repo.example/a.json".to_string())), Err("书源地址必须使用 HTTPS".to_string()));
    assert_eq!(sync_target(&Some("nonsense".to_string())), Err("书源地址无效".to_string()));
    assert_eq!(sync_target(&Some("https://repo.example/a.json".to_string())), Ok("https://repo.example/a.json".to_string()));
    assert_eq!(check_repository_size(64 * 1024 * 1024), Ok(()));
    assert_eq!(check_repository_size(64 * 1024 * 1024 + 1), Err("书源文件超过 64MB 安全上限".to_string()));
    assert_eq!(check_repository_sources(&vec![BookSource::default()]), Err("文件中没有识别到 Legado 书源".to_string()));
    assert_eq!(check_repository_sources(&vec![BookSource::default(), searchable_source("甲")]), Ok(()));
}

/// `{"body":…,"method":"Post"}` or a header object, as a document.
fn object(members: &[(&str, Option<&str>)]) -> (JsonDoc, usize) {
    let mut doc = JsonDoc::new();
    let mut keys = Vec::new();
    let mut ids = Vec::new();
    for (k, v) in members {
        keys.push(k.to_string());
        ids.push(match v {
            Some(text) => doc.add_string(text.to_string()),
            None => doc.add_number("1".to_string()),
        });
    }
    let root = doc.add_object(keys, ids, "{}".to_string());
    (doc, root)
}

#[test]
fn requests_follow_their_options_and_headers() {
    assert_eq!(json_quotes("{'method':'POST'}"), "{\"method\":\"POST\"}");
    let options = object(&[("body", Some("k=三体")), ("method", Some("Post"))]);
    let header = object(&[("Referer", Some("https://example.com")), ("X-Count", None)]);
    let plan = request_plan(&Some(options), &Some(header));
    assert!(plan.post);
    assert!(matches!(plan.body, Some(RequestBody::Text(t)) if t == "k=三体"));
    assert_eq!(plan.headers, vec![("Referer".to_string(), "https://example.com".to_string())]);
    let mut doc = JsonDoc::new();
    let n = doc.add_number("7".to_string());
    let body = doc.add_object(vec!["id".to_string()], vec![n], "{\"id\":7}".to_string());
    let root = doc.add_object(vec!["body".to_string()], vec![body], "{}".to_string());
    let json_body = request_plan(&Some((doc, root)), &None);
    assert!(!json_body.post);
    assert!(matches!(json_body.body, Some(RequestBody::Json(t)) if t == "{\"id\":7}"));
    assert!(json_body.headers.is_empty());
    let mut null_doc = JsonDoc::new();
    let null = null_doc.add_null();
    let null_root = null_doc.add_object(vec!["body".to_string()], vec![null], "{}".to_string());
    assert!(matches!(request_plan(&Some((null_doc, null_root)), &None).body, Some(RequestBody::Json(t)) if t == "null"));
    let none = request_plan(&None, &None);
    assert!(!none.post && none.body.is_none() && none.headers.is_empty());
}

#[test]
fn templates_split_at_their_placeholders() {
    let text: Vec<char> = "a{{x}}b{{}}c{{{y}}}".chars().collect();
    let got: Vec<(String, bool)> =
        inkscope::rules::template_parts_exec(&text).into_iter().map(|p| (p.text, p.is_expr)).collect();
    assert_eq!(
        got,
        vec![
            ("a".to_string(), false),
            ("x".to_string(), true),
            ("b{{}}c{".to_string(), false),
            ("y".to_string(), true),
            ("}".to_string(), false),
        ]
    );
    let plain: Vec<char> = "no placeholder".chars().collect();
    let got: Vec<(String, bool)> =
        inkscope::rules::template_parts_exec(&plain).into_iter().map(|p| (p.text, p.is_expr)).collect();
    assert_eq!(got, vec![("no placeholder".to_string(), false)]);
}
