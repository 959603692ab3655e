//! Public pages of the reading platforms that a book can be taken from: which
//! addresses are accepted, and the title and text read from such a page.

use vstd::prelude::*;
use crate::outside::{
    decode_entities, entities_decoded, parsed_url, regex_capture1, regex_group1, url_parse,
};
use crate::rules::{apply_replace, spec_apply_replace, ANY_TAG};
use crate::text::{char_count, chars_of, ends_with, ends_with_exec, trim, trim_str};

verus! {

/// The regular expression of a page's title; its group 1 is the title's text.
pub const TITLE_PATTERN: &'static str = "(?is)<title[^>]*>(.*?)</title>";

/// The regular expression of a script or style element.
pub const SCRIPT_PATTERN: &'static str = "(?is)<(script|style)[^>]*>.*?</(script|style)>";

/// The regular expression of a run of spaces or tabs, or of three or more line breaks.
pub const SPACE_PATTERN: &'static str = "[ \\t]+|\\n{3,}";

/// A host of the platforms whose public pages are read: Qidian and Fanqie, with
/// their subdomains.
pub open spec fn public_host(host: Seq<char>) -> bool {
    ||| host == "qidian.com"@
    ||| ends_with(host, ".qidian.com"@)
    ||| host == "fanqienovel.com"@
    ||| ends_with(host, ".fanqienovel.com"@)
}

/// The page to read for a link: it must be a URL of one of the platforms. The
/// result is the URL as `Url` writes it.
pub open spec fn spec_public_page_url(url: Seq<char>) -> Result<Seq<char>, Seq<char>> {
    match parsed_url(url) {
        None => Err("无效的小说链接"@),
        Some((text, _, host)) => {
            let h = match host {
                Some(h) => h,
                None => Seq::empty(),
            };
            if public_host(h) {
                Ok(text)
            } else {
                Err("目前只支持番茄和起点的公开页面"@)
            }
        },
    }
}

/// The page to read for a link.
pub fn public_page_url(url: &str) -> (r: Result<String, String>)
    ensures
        crate::web::text_result_view(r) == spec_public_page_url(url@),
{
    match url_parse(url) {
        None => Err("无效的小说链接".to_owned()),
        Some(parts) => {
            let h = match &parts.host {
                Some(h) => chars_of(h.as_str()),
                None => Vec::new(),
            };
            if crate::html::eq_chars(&h, "qidian.com") || ends_with_exec(&h, &chars_of(".qidian.com"))
                || crate::html::eq_chars(&h, "fanqienovel.com") || ends_with_exec(&h, &chars_of(".fanqienovel.com")) {
                Ok(parts.text)
            } else {
                Err("目前只支持番茄和起点的公开页面".to_owned())
            }
        },
    }
}

/// A book read from a public page.
pub struct ExtractedPage {
    pub title: String,
    pub content: String,
    pub source_uri: String,
}

/// The text of a public page: scripts and styles become spaces, tags line breaks,
/// runs of spaces and of blank lines one blank line; after trimming, HTML entities
/// are decoded.
pub open spec fn page_text(html: Seq<char>) -> Seq<char> {
    let without_scripts = spec_apply_replace(html, Some((SCRIPT_PATTERN@, " "@)));
    let text = spec_apply_replace(without_scripts, Some((ANY_TAG@, "\n"@)));
    let content = spec_apply_replace(text, Some((SPACE_PATTERN@, "\n\n"@)));
    entities_decoded(trim(content))
}

/// The title of a public page: the decoded text of its `<title>`, else a
/// placeholder; trimmed.
pub open spec fn page_title(html: Seq<char>) -> Seq<char> {
    trim(
        match regex_group1(TITLE_PATTERN@, html) {
            Some(t) => entities_decoded(t),
            None => "未命名作品"@,
        },
    )
}

/// The book read from a public page fetched from `source_uri`: refused when the
/// page has fewer than 200 characters of text.
pub open spec fn spec_public_page(html: Seq<char>, source_uri: Seq<char>) -> Result<(Seq<char>, Seq<char>, Seq<char>), Seq<char>> {
    let content = page_text(html);
    if content.len() < 200 {
        Err("页面中没有足够的公开正文，请上传 TXT/MD 文件"@)
    } else {
        Ok((page_title(html), content, source_uri))
    }
}

/// The view of a book read from a public page.
pub open spec fn page_view(r: Result<ExtractedPage, String>) -> Result<(Seq<char>, Seq<char>, Seq<char>), Seq<char>> {
    match r {
        Ok(p) => Ok((p.title@, p.content@, p.source_uri@)),
        Err(e) => Err(e@),
    }
}

/// The book read from a public page.
pub fn public_page(html: &str, source_uri: String) -> (r: Result<ExtractedPage, String>)
    ensures
        page_view(r) == spec_public_page(html@, source_uri@),
{
    let title = match regex_capture1(TITLE_PATTERN, html) {
        Some(t) => decode_entities(t.as_str()),
        None => "未命名作品".to_owned(),
    };
    let without_scripts = apply_replace(html.to_owned(), &Some((SCRIPT_PATTERN.to_owned(), " ".to_owned())));
    let text = apply_replace(without_scripts, &Some((ANY_TAG.to_owned(), "\n".to_owned())));
    let content = apply_replace(text, &Some((SPACE_PATTERN.to_owned(), "\n\n".to_owned())));
    let trimmed = trim_str(content.as_str());
    let content = decode_entities(trimmed.as_str());
    if char_count(content.as_str()) < 200 {
        return Err("页面中没有足够的公开正文，请上传 TXT/MD 文件".to_owned());
    }
    Ok(ExtractedPage { title: trim_str(title.as_str()), content, source_uri })
}

} // verus!
