use std::io::{Cursor, Write};

use inkscope::book::{
    book_file_name, book_matches, chapters_from_content, check_export, clean_reader_text, docx_document, docx_package,
    docx_paragraph, export_file_name, legado_origin, newest_first, safe_file_name, txt_export, validate_new_book,
    DOCX_CONTENT_TYPES, DOCX_RELS, DOCX_STYLES,
};
use inkscope::chunking::split_content;
use inkscope::page::{public_page, public_page_url};

#[test]
fn splits_long_chinese_text_on_utf8_boundaries() {
    let content = "第一章\n这是用于验证长篇中文切片的句子。".repeat(8_000);
    let chunks = split_content(&content, 100_000);
    assert!(chunks.len() > 1);
    assert_eq!(chunks.concat(), content);
}

#[test]
fn chunks_end_at_sentence_or_line_breaks() {
    let content = "一二三四五。六七八九十\n".repeat(10);
    let chunks = split_content(&content, 40);
    assert_eq!(chunks.concat(), content);
    for c in &chunks[..chunks.len() - 1] {
        assert!(c.len() <= 40);
    }
    assert!(split_content("", 10).is_empty());
}

fn write_package(title: &str, chapters: &Vec<(String, String)>) -> Vec<u8> {
    let mut zip = zip::ZipWriter::new(Cursor::new(Vec::new()));
    let options = zip::write::SimpleFileOptions::default().compression_method(zip::CompressionMethod::Deflated);
    for (name, text) in docx_package(title, chapters) {
        match text {
            Some(text) => {
                zip.start_file(name, options).unwrap();
                zip.write_all(text.as_bytes()).unwrap();
            }
            None => zip.add_directory(name, options).unwrap(),
        }
    }
    zip.finish().unwrap().into_inner()
}

#[test]
fn builds_chapter_index_and_valid_docx_package() {
    let chapters = chapters_from_content("测试书", "# 第一章\n正文一\n# 第二章\n正文二");
    assert_eq!(chapters.len(), 2);
    assert_eq!(chapters[1].0, "第二章");
    let bytes = write_package("测试书", &chapters);
    let mut archive = zip::ZipArchive::new(Cursor::new(bytes)).unwrap();
    assert!(archive.by_name("word/document.xml").is_ok());
}

#[test]
fn chapters_take_their_headings() {
    let chapters = chapters_from_content("书", "前言\n# 一 \n甲\n\n\n\n乙\n#二\n# 三\n");
    let got: Vec<(&str, &str)> = chapters.iter().map(|(t, c)| (t.as_str(), c.as_str())).collect();
    assert_eq!(got, vec![("书", "前言"), ("一", "甲\n\n乙\n#二"), ("三", "")]);
    let plain = chapters_from_content("书", "没有标题的正文");
    assert_eq!(plain, vec![("书".to_string(), "没有标题的正文".to_string())]);
    assert!(chapters_from_content("书", "  \n ").is_empty());
}

#[test]
fn reader_text_is_cleaned() {
    assert_eq!(clean_reader_text("<div>一</div><br/>二&amp;三\n\n\n\n四 "), "一\n\n二&三\n\n四");
}

#[test]
fn new_books_are_checked() {
    let long = "字".repeat(80);
    assert_eq!(validate_new_book("  ", &long), Err("请输入作品名".to_string()));
    assert_eq!(validate_new_book("书", &"字".repeat(79)), Err("正文至少需要 80 个字符".to_string()));
    assert_eq!(validate_new_book(" 书 ", &format!(" {long}\n")), Ok(("书".to_string(), long.clone())));
}

#[test]
fn book_files_are_named_by_uuid() {
    assert_eq!(
        book_file_name("67e55044-10b1-426f-9247-bb680e5fe0c8"),
        Ok("67e55044-10b1-426f-9247-bb680e5fe0c8.sqlite".to_string())
    );
    assert_eq!(book_file_name("../etc/passwd"), Err("无效的书籍 ID".to_string()));
}

#[test]
fn exports_are_named_and_written() {
    assert_eq!(safe_file_name(" a/b\\c:d*e?f\"g<h>i|j "), "a_b_c_d_e_f_g_h_i_j");
    assert_eq!(export_file_name("三/体", "20240101-120000", "txt"), Ok("三_体-20240101-120000.txt".to_string()));
    assert_eq!(export_file_name("三体", "s", "docx"), Ok("三体-s.docx".to_string()));
    assert_eq!(export_file_name("三体", "s", "pdf"), Err("仅支持 txt 或 docx 导出".to_string()));
    assert_eq!(check_export(0), Err("书籍尚未下载章节，无法导出".to_string()));
    assert_eq!(check_export(2), Ok(()));
    let chapters = vec![("一".to_string(), "甲".to_string()), ("二".to_string(), "乙".to_string())];
    assert_eq!(txt_export("书", &chapters), "《书》\n\n一\n\n甲\n\n二\n\n乙\n\n");
}

#[test]
fn docx_paragraphs_escape_their_text() {
    assert_eq!(
        docx_paragraph("A&B<C>", true),
        r#"<w:p><w:pPr><w:pStyle w:val="Heading1"/></w:pPr><w:r><w:t>A&amp;B&lt;C&gt;</w:t></w:r></w:p>"#
    );
    let doc = docx_document("书", &vec![("一".to_string(), "甲\n \n乙".to_string())]);
    assert!(doc.contains("<w:t xml:space=\"preserve\">甲</w:t></w:r></w:p><w:p/><w:p><w:pPr>"));
    assert!(doc.ends_with("</w:sectPr></w:body></w:document>"));
}

#[test]
fn books_are_found_and_ordered() {
    assert!(book_matches("", "三体", ""));
    assert!(book_matches("ABC", "xabcx", ""));
    assert!(book_matches("主线", "书", "{\"mainLine\":\"主线\"}"));
    assert!(!book_matches("球", "三体", "{}"));
    let updated = vec![
        "2024-01-02T00:00:00+00:00".to_string(),
        "2024-03-01T00:00:00+00:00".to_string(),
        "2024-01-02T00:00:00+00:00".to_string(),
        "2023-12-31T00:00:00+00:00".to_string(),
    ];
    assert_eq!(newest_first(&updated), vec![1, 0, 2, 3]);
}

#[test]
fn legado_origins_are_split() {
    assert_eq!(
        legado_origin("某书源 · https://example.com/book/7"),
        Ok(("某书源".to_string(), "https://example.com/book/7".to_string()))
    );
    assert_eq!(legado_origin("upload.txt"), Err("这本书没有可用于补全的 Legado 原书源记录".to_string()));
}

#[test]
fn public_pages_are_limited_to_the_platforms() {
    assert_eq!(public_page_url("https://book.qidian.com/info/1"), Ok("https://book.qidian.com/info/1".to_string()));
    assert_eq!(public_page_url("https://fanqienovel.com/page/2"), Ok("https://fanqienovel.com/page/2".to_string()));
    assert_eq!(public_page_url("https://example.com/"), Err("目前只支持番茄和起点的公开页面".to_string()));
    assert_eq!(public_page_url("not a link"), Err("无效的小说链接".to_string()));
    assert_eq!(public_page_url("HTTPS://Book.QIDIAN.com/info/1"), Ok("https://book.qidian.com/info/1".to_string()));
}

#[test]
fn public_pages_give_title_and_text() {
    let body = "正文".repeat(120);
    let html = format!(
        "<html><head><title> 书名&amp;副题 </title><style>p{{}}</style><script>var a=1;</script></head><body><p>{body}</p></body></html>"
    );
    let page = public_page(&html, "https://book.qidian.com/1".to_string()).unwrap();
    assert_eq!(page.title, "书名&副题");
    assert_eq!(page.content, format!("书名&副题\n\n\n\n\n\n\n{body}"));
    assert_eq!(page.source_uri, "https://book.qidian.com/1");
    let untitled = public_page("<p>太短</p>", "u".to_string());
    assert!(matches!(untitled, Err(e) if e == "页面中没有足够的公开正文，请上传 TXT/MD 文件"));
}

#[test]
fn docx_packages_list_their_parts() {
    let chapters = vec![("一".to_string(), "甲".to_string())];
    let entries = docx_package("书", &chapters);
    let names: Vec<&str> = entries.iter().map(|(n, _)| n.as_str()).collect();
    assert_eq!(
        names,
        vec!["[Content_Types].xml", "_rels/", "_rels/.rels", "word/", "word/styles.xml", "word/document.xml"]
    );
    assert_eq!(entries[0].1.as_deref(), Some(DOCX_CONTENT_TYPES));
    assert_eq!(entries[1].1, None);
    assert_eq!(entries[2].1.as_deref(), Some(DOCX_RELS));
    assert_eq!(entries[3].1, None);
    assert_eq!(entries[4].1.as_deref(), Some(DOCX_STYLES));
    assert_eq!(entries[5].1, Some(docx_document("书", &chapters)));
}

#[test]
fn book_ids_take_every_uuid_form() {
    for id in [
        "550e8400e29b41d4a716446655440000",
        "550E8400-E29B-41D4-A716-446655440000",
        "{550e8400-e29b-41d4-a716-446655440000}",
        "URN:uuid:550e8400-e29b-41d4-a716-446655440000",
    ] {
        assert_eq!(book_file_name(id), Ok(format!("{id}.sqlite")), "{id}");
    }
    for id in [
        "550e8400-e29b-41d4-a716-44665544000g",
        "550e8400-e29b-41d4-a716+446655440000",
        "(550e8400-e29b-41d4-a716-446655440000)",
        "urn:uid:x550e8400-e29b-41d4-a716-446655440000",
        "",
    ] {
        assert_eq!(book_file_name(id), Err("无效的书籍 ID".to_string()), "{id}");
    }
}
