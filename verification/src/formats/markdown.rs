//! Markdown page conversion: escaped text, `[label](url)` anchors and a
//! header divider after the first table row.

use crate::dom::find_content_in_nodes;
use crate::dom::get_page_content;
use crate::dom::HtmlDocument;
use crate::error::WikiError;
use crate::formats::content_children;
use crate::formats::convert_content;
use crate::formats::convert_seq;
use crate::formats::plain_text::SUGGESTION_LIMIT;
use crate::formats::PageFormat;
use crate::suggest::get_top_pages;
use crate::suggest::top_pages_spec;
use crate::text::join_strings;
use crate::text::join_with;
use vstd::prelude::*;

verus! {

/// Converts the body of the page to a Markdown string.
///
/// If the page has no content container, the titles most like `page` are
/// returned inside a `NoPageFound` error, one per line.
pub fn convert_page_to_markdown(
    document: &HtmlDocument,
    page: &str,
    pages: &Vec<String>,
    show_urls: bool,
) -> (r: Result<String, WikiError>)
    ensures
        match find_content_in_nodes(document.roots@) {
            Some(c) => r matches Ok(out) && out@ == convert_seq(
                PageFormat::Markdown,
                content_children(c),
                show_urls,
            ),
            None => r matches Err(e) && e matches WikiError::NoPageFound(msg) && msg@
                == join_with(
                top_pages_spec(page@, pages.deep_view(), SUGGESTION_LIMIT as int),
                "\n"@,
            ),
        },
{
    match get_page_content(document) {
        Some(content) => Ok(convert_content(content, PageFormat::Markdown, show_urls)),
        None => {
            let recommendations = get_top_pages(page, SUGGESTION_LIMIT, pages);
            Err(WikiError::NoPageFound(join_strings(&recommendations, "\n")))
        },
    }
}

} // verus!
