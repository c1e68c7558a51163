//! Plain-text page conversion: tags are dropped, text is kept verbatim,
//! anchors may show their target in a bracketed suffix.

use crate::dom::find_content_in_nodes;
use crate::dom::get_page_content;
use crate::dom::HtmlDocument;
use crate::error::WikiError;
use crate::formats::content_children;
use crate::formats::convert_content;
use crate::formats::convert_seq;
use crate::formats::PageFormat;
use crate::suggest::get_top_pages;
use crate::suggest::top_pages_spec;
use crate::text::join_strings;
use crate::text::join_with;
use vstd::prelude::*;
use vstd::string::StringExecFns;

verus! {

/// How many suggestions accompany a "no page found" outcome.
pub const SUGGESTION_LIMIT: usize = 5;

/// Converts the body of the page to a plain text string, removing all tags
/// and only leaving the text node content; URLs can be shown in a
/// bracketed suffix after each link label.
///
/// If the page has no content container, the titles most like `page` are
/// returned inside a `NoPageFound` error, one per line.
pub fn convert_page_to_plain_text(
    document: &HtmlDocument,
    page: &str,
    pages: &Vec<String>,
    show_urls: bool,
) -> (r: Result<String, WikiError>)
    ensures
        match find_content_in_nodes(document.roots@) {
            Some(c) => r matches Ok(out) && out@ == convert_seq(
                PageFormat::PlainText,
                content_children(c),
                show_urls,
            ),
            None => r matches Err(e) && e matches WikiError::NoPageFound(msg) && msg@
                == join_with(
                top_pages_spec(page@, pages.deep_view(), SUGGESTION_LIMIT as int),
                "\n"@,
            ),
        },
{
    match get_page_content(document) {
        Some(content) => Ok(convert_content(content, PageFormat::PlainText, show_urls)),
        None => {
            let recommendations = get_top_pages(page, SUGGESTION_LIMIT, pages);
            Err(WikiError::NoPageFound(join_strings(&recommendations, "\n")))
        },
    }
}

/// Renders a link label followed by its bracketed target.
pub fn wrap_text_in_url(text: &str, url: &str) -> (r: String)
    ensures
        r@ == text@ + "["@ + url@ + "]"@,
{
    let mut out = text.to_owned();
    out.append("[");
    out.append(url);
    out.append("]");
    out
}

} // verus!
