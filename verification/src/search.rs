//! The search formatter: turns open-search and text-search API responses
//! into parsed pairs and aligned tables, and converts HTML snippets to
//! single-line plain text.

use crate::dom::HtmlDocument;
use crate::error::InvalidApiResponse;
use crate::error::WikiError;
use crate::formats::convert_seq;
use crate::formats::exec_convert_nodes;
use crate::formats::PageFormat;
use crate::text::collapse_newlines;
use crate::text::collapse_newlines_spec;
use crate::text::join_strings;
use crate::text::join_with;
use crate::text::pad_spec;
use crate::text::pad_to;
use crate::text::str_eq;
use vstd::prelude::*;
use vstd::string::StringExecFns;

verus! {

/// The width of the title column in search tables.
pub const SEARCH_TITLE_WIDTH: usize = 20;

/// The width of the value column in search tables.
pub const SEARCH_VALUE_WIDTH: usize = 90;

/// One element of an open-search response: the echoed query is a single
/// string, the title and URL elements are arrays.
#[derive(Debug, PartialEq, Eq)]
pub enum OpenSearchItem {
    Single(String),
    Array(Vec<String>),
}

/// One parsed open-search result: a page title and its canonical URL.
#[derive(Debug, PartialEq, Eq)]
pub struct OpenSearchItemParsed {
    pub title: String,
    pub url: String,
}

/// A text-search response: the list of matched items.
#[derive(Debug)]
pub struct TextSearchApiResponse {
    pub search: Vec<TextSearchItem>,
}

/// One text-search result: a page title and an HTML snippet of the match
/// context.
#[derive(Debug, PartialEq, Eq)]
pub struct TextSearchItem {
    pub title: String,
    pub snippet: String,
}

impl TextSearchItem {
    /// Replaces the snippet with its single-line plain-text rendering:
    /// the parsed snippet fragment is linearised with plain-text rules and
    /// URLs hidden, and newlines collapse to spaces.
    pub fn prettify_snippet(&mut self, snippet_doc: &HtmlDocument)
        ensures
            final(self).snippet@ == collapse_newlines_spec(
                convert_seq(PageFormat::PlainText, snippet_doc.roots@, false),
            ),
            final(self).title == old(self).title,
    {
        let plain = exec_convert_nodes(PageFormat::PlainText, &snippet_doc.roots, false);
        self.snippet = collapse_newlines(plain.as_str());
    }
}

/// What the pair parser returns for each response shape: the title/URL
/// pairs, or the first shape violation found.
pub open spec fn open_search_pairs_outcome(s: Seq<OpenSearchItem>) -> Result<
    Seq<(Seq<char>, Seq<char>)>,
    InvalidApiResponse,
> {
    if s.len() <= 1 {
        Err(InvalidApiResponse::OpenSearchMissingNthElement(1))
    } else if s.len() <= 3 {
        Err(InvalidApiResponse::OpenSearchMissingNthElement(3))
    } else if !(s[1] is Array) {
        Err(InvalidApiResponse::OpenSearchNthElementShouldBeArray(1))
    } else if !(s[3] is Array) {
        Err(InvalidApiResponse::OpenSearchNthElementShouldBeArray(3))
    } else {
        let names = s[1]->Array_0;
        let urls = s[3]->Array_0;
        if names@.len() != urls@.len() {
            Err(InvalidApiResponse::OpenSearchArraysLengthMismatch)
        } else {
            Ok(Seq::new(names@.len(), |i: int| (names@[i]@, urls@[i]@)))
        }
    }
}

/// Convert an open search response into a list of name and URL pairs.
///
/// Errors:
/// - If the response does not have elements at positions 1 and 3
/// - If those elements are not arrays
/// - If the two arrays have different lengths
pub fn open_search_to_page_url_pairs(search_result: &[OpenSearchItem]) -> (r: Result<
    Vec<OpenSearchItemParsed>,
    WikiError,
>)
    ensures
        match r {
            Ok(v) => open_search_pairs_outcome(search_result@) matches Ok(ps) && v@.len()
                == ps.len() && forall|i: int|
                0 <= i < ps.len() ==> (#[trigger] v@[i]).title@ == ps[i].0 && v@[i].url@
                    == ps[i].1,
            Err(e) => e matches WikiError::InvalidApiResponse(code)
                && open_search_pairs_outcome(search_result@) matches Err(c) && c == code,
        },
{
    if search_result.len() <= 1 {
        return Err(
            WikiError::InvalidApiResponse(InvalidApiResponse::OpenSearchMissingNthElement(1)),
        );
    }
    if search_result.len() <= 3 {
        return Err(
            WikiError::InvalidApiResponse(InvalidApiResponse::OpenSearchMissingNthElement(3)),
        );
    }
    let names = match &search_result[1] {
        OpenSearchItem::Array(v) => v,
        _ => {
            return Err(
                WikiError::InvalidApiResponse(
                    InvalidApiResponse::OpenSearchNthElementShouldBeArray(1),
                ),
            );
        },
    };
    let urls = match &search_result[3] {
        OpenSearchItem::Array(v) => v,
        _ => {
            return Err(
                WikiError::InvalidApiResponse(
                    InvalidApiResponse::OpenSearchNthElementShouldBeArray(3),
                ),
            );
        },
    };
    if names.len() != urls.len() {
        return Err(
            WikiError::InvalidApiResponse(InvalidApiResponse::OpenSearchArraysLengthMismatch),
        );
    }
    let mut out: Vec<OpenSearchItemParsed> = Vec::new();
    let mut i: usize = 0;
    while i < names.len()
        invariant
            0 <= i <= names@.len(),
            names@.len() == urls@.len(),
            out@.len() == i,
            forall|j: int|
                0 <= j < i ==> (#[trigger] out@[j]).title@ == names@[j]@ && out@[j].url@
                    == urls@[j]@,
        decreases names@.len() - i,
    {
        out.push(
            OpenSearchItemParsed { title: names[i].clone(), url: urls[i].clone() },
        );
        i = i + 1;
    }
    Ok(out)
}

/// What the name extractor returns for each response shape: the title
/// list, or the first shape violation found.
pub open spec fn open_search_names_outcome(s: Seq<OpenSearchItem>) -> Result<
    Seq<Seq<char>>,
    InvalidApiResponse,
> {
    if s.len() <= 1 {
        Err(InvalidApiResponse::OpenSearchMissingNthElement(1))
    } else if !(s[1] is Array) {
        Err(InvalidApiResponse::OpenSearchNthElementShouldBeArray(1))
    } else {
        Ok(Seq::new(s[1]->Array_0@.len(), |i: int| s[1]->Array_0@[i]@))
    }
}

/// Extracts the matched page titles from an open search response.
pub fn open_search_to_page_names(search_result: &[OpenSearchItem]) -> (r: Result<
    Vec<String>,
    WikiError,
>)
    ensures
        match r {
            Ok(v) => open_search_names_outcome(search_result@) matches Ok(ns)
                && v.deep_view() == ns,
            Err(e) => e matches WikiError::InvalidApiResponse(code)
                && open_search_names_outcome(search_result@) matches Err(c) && c == code,
        },
{
    if search_result.len() <= 1 {
        return Err(
            WikiError::InvalidApiResponse(InvalidApiResponse::OpenSearchMissingNthElement(1)),
        );
    }
    let names = match &search_result[1] {
        OpenSearchItem::Array(v) => v,
        _ => {
            return Err(
                WikiError::InvalidApiResponse(
                    InvalidApiResponse::OpenSearchNthElementShouldBeArray(1),
                ),
            );
        },
    };
    let mut out: Vec<String> = Vec::new();
    let mut i: usize = 0;
    while i < names.len()
        invariant
            0 <= i <= names@.len(),
            out.deep_view().len() == i,
            forall|j: int| 0 <= j < i ==> out.deep_view()[j] == #[trigger] names@[j]@,
        decreases names@.len() - i,
    {
        let ghost pre = out.deep_view();
        let name = names[i].clone();
        let ghost nv = name@;
        out.push(name);
        proof {
            assert(out.deep_view() =~= pre.push(nv));
        }
        i = i + 1;
    }
    proof {
        assert(out.deep_view() =~= Seq::new(names@.len(), |i: int| names@[i]@));
    }
    Ok(out)
}

/// Return the provided page name if the top search result exactly matches
/// it.
pub fn open_search_is_page_exact_match<'a>(
    page: &'a str,
    search_result: &[OpenSearchItem],
) -> (r: Result<Option<&'a str>, WikiError>)
    ensures
        match r {
            Ok(opt) => open_search_names_outcome(search_result@) matches Ok(ns) && (match opt {
                Some(p) => ns.len() > 0 && ns[0] == page@ && p@ == page@,
                None => ns.len() == 0 || ns[0] != page@,
            }),
            Err(e) => e matches WikiError::InvalidApiResponse(code)
                && open_search_names_outcome(search_result@) matches Err(c) && c == code,
        },
{
    if search_result.len() <= 1 {
        return Err(
            WikiError::InvalidApiResponse(InvalidApiResponse::OpenSearchMissingNthElement(1)),
        );
    }
    let names = match &search_result[1] {
        OpenSearchItem::Array(v) => v,
        _ => {
            return Err(
                WikiError::InvalidApiResponse(
                    InvalidApiResponse::OpenSearchNthElementShouldBeArray(1),
                ),
            );
        },
    };
    if names.len() > 0 && str_eq(names[0].as_str(), page) {
        Ok(Some(page))
    } else {
        Ok(None)
    }
}

/// One aligned table row: a padded title, a separator and a padded value.
pub open spec fn search_row_spec(title: Seq<char>, value: Seq<char>) -> Seq<char> {
    pad_spec(title, SEARCH_TITLE_WIDTH as int) + " | "@ + pad_spec(
        value,
        SEARCH_VALUE_WIDTH as int,
    )
}

/// A whole search table: a header line, then one row per entry.
pub open spec fn search_table_spec(
    left_header: Seq<char>,
    right_header: Seq<char>,
    rows: Seq<(Seq<char>, Seq<char>)>,
) -> Seq<char> {
    search_row_spec(left_header, right_header) + "\n"@ + join_with(
        rows.map_values(|p: (Seq<char>, Seq<char>)| search_row_spec(p.0, p.1)),
        "\n"@,
    )
}

/// Builds one aligned row.
fn exec_search_row(title: &str, value: &str) -> (r: String)
    ensures
        r@ == search_row_spec(title@, value@),
{
    let mut out = pad_to(title, SEARCH_TITLE_WIDTH);
    out.append(" | ");
    let padded = pad_to(value, SEARCH_VALUE_WIDTH);
    out.append(padded.as_str());
    out
}

/// The title/URL views of parsed open-search entries.
pub open spec fn parsed_pairs_view(s: Seq<OpenSearchItemParsed>) -> Seq<(Seq<char>, Seq<char>)> {
    s.map_values(|it: OpenSearchItemParsed| (it.title@, it.url@))
}

/// Formats parsed open-search results as an aligned table with a `PAGE`
/// and a `URL` column.
pub fn fmt_open_search_plain(name_url_pairs: &[OpenSearchItemParsed]) -> (r: String)
    ensures
        r@ == search_table_spec("PAGE"@, "URL"@, parsed_pairs_view(name_url_pairs@)),
{
    let mut rows: Vec<String> = Vec::new();
    let mut i: usize = 0;
    while i < name_url_pairs.len()
        invariant
            0 <= i <= name_url_pairs@.len(),
            rows.deep_view().len() == i,
            forall|j: int|
                0 <= j < i ==> rows.deep_view()[j] == search_row_spec(
                    (#[trigger] name_url_pairs@[j]).title@,
                    name_url_pairs@[j].url@,
                ),
        decreases name_url_pairs@.len() - i,
    {
        let ghost pre = rows.deep_view();
        let row = exec_search_row(
            name_url_pairs[i].title.as_str(),
            name_url_pairs[i].url.as_str(),
        );
        let ghost rv = row@;
        rows.push(row);
        proof {
            assert(rows.deep_view() =~= pre.push(rv));
        }
        i = i + 1;
    }
    let mut out = exec_search_row("PAGE", "URL");
    out.append("\n");
    let body = join_strings(&rows, "\n");
    out.append(body.as_str());
    proof {
        assert(rows.deep_view() =~= parsed_pairs_view(name_url_pairs@).map_values(
            |p: (Seq<char>, Seq<char>)| search_row_spec(p.0, p.1),
        ));
        assert(out@ =~= search_table_spec(
            "PAGE"@,
            "URL"@,
            parsed_pairs_view(name_url_pairs@),
        ));
    }
    out
}

/// The title/snippet views of text-search entries.
pub open spec fn text_items_view(s: Seq<TextSearchItem>) -> Seq<(Seq<char>, Seq<char>)> {
    s.map_values(|it: TextSearchItem| (it.title@, it.snippet@))
}

/// Formats text-search results as an aligned table with a `PAGE` and a
/// `SNIPPET` column.
pub fn fmt_text_search_plain(search_result: &[TextSearchItem]) -> (r: String)
    ensures
        r@ == search_table_spec("PAGE"@, "SNIPPET"@, text_items_view(search_result@)),
{
    let mut rows: Vec<String> = Vec::new();
    let mut i: usize = 0;
    while i < search_result.len()
        invariant
            0 <= i <= search_result@.len(),
            rows.deep_view().len() == i,
            forall|j: int|
                0 <= j < i ==> rows.deep_view()[j] == search_row_spec(
                    (#[trigger] search_result@[j]).title@,
                    search_result@[j].snippet@,
                ),
        decreases search_result@.len() - i,
    {
        let ghost pre = rows.deep_view();
        let row = exec_search_row(
            search_result[i].title.as_str(),
            search_result[i].snippet.as_str(),
        );
        let ghost rv = row@;
        rows.push(row);
        proof {
            assert(rows.deep_view() =~= pre.push(rv));
        }
        i = i + 1;
    }
    let mut out = exec_search_row("PAGE", "SNIPPET");
    out.append("\n");
    let body = join_strings(&rows, "\n");
    out.append(body.as_str());
    proof {
        assert(rows.deep_view() =~= text_items_view(search_result@).map_values(
            |p: (Seq<char>, Seq<char>)| search_row_spec(p.0, p.1),
        ));
        assert(out@ =~= search_table_spec(
            "PAGE"@,
            "SNIPPET"@,
            text_items_view(search_result@),
        ));
    }
    out
}

} // verus!
