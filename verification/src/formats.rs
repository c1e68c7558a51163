//! The format converter: a depth-first, order-preserving linearisation of a
//! content tree into plain text, Markdown or HTML, with format-specific
//! escaping, anchor rendering and aligned table rows.

pub mod html;
pub mod laws;
pub mod markdown;
pub mod plain_text;

use crate::dom::attr_spec;
use crate::dom::attr_value;
use crate::dom::HtmlNode;
use crate::text::join_strings;
use crate::text::join_with;
use crate::text::pad_spec;
use crate::text::pad_to;
use crate::text::push_char;
use crate::text::str_eq;
use crate::text::trim_end;
use crate::text::trim_end_spec;
use vstd::prelude::*;
use vstd::string::StrSliceExecFns;
use vstd::string::StringExecFns;

verus! {

/// The closed set of output formats.
#[derive(Debug, Clone, Copy, PartialEq, Eq, Structural)]
pub enum PageFormat {
    PlainText,
    Markdown,
    Html,
}

/// The width every table cell is padded to.
pub const TABLE_COL_WIDTH: usize = 25;

/// How one character of a text node is emitted: verbatim for plain text,
/// backslash-escaped Markdown metacharacters, entity-escaped HTML.
pub open spec fn esc_char(f: PageFormat, c: char) -> Seq<char> {
    match f {
        PageFormat::PlainText => seq![c],
        PageFormat::Markdown => {
            if c == '\\' || c == '`' || c == '*' || c == '_' || c == '[' || c == ']' {
                seq!['\\', c]
            } else {
                seq![c]
            }
        },
        PageFormat::Html => {
            if c == '&' {
                "&amp;"@
            } else if c == '<' {
                "&lt;"@
            } else if c == '>' {
                "&gt;"@
            } else {
                seq![c]
            }
        },
    }
}

/// A text run emitted character by character under the format's escaping.
pub open spec fn esc_text(f: PageFormat, t: Seq<char>) -> Seq<char>
    decreases t.len(),
{
    if t.len() == 0 {
        Seq::empty()
    } else {
        esc_char(f, t[0]) + esc_text(f, t.subrange(1, t.len() as int))
    }
}

/// Appends the escaped form of one character.
fn esc_push(f: PageFormat, c: char, out: &mut String)
    ensures
        final(out)@ == old(out)@ + esc_char(f, c),
{
    match f {
        PageFormat::PlainText => {
            push_char(out, c);
            assert(out@ =~= old(out)@ + esc_char(f, c));
        },
        PageFormat::Markdown => {
            if c == '\\' || c == '`' || c == '*' || c == '_' || c == '[' || c == ']' {
                push_char(out, '\\');
                push_char(out, c);
                assert(out@ =~= old(out)@ + esc_char(f, c));
            } else {
                push_char(out, c);
                assert(out@ =~= old(out)@ + esc_char(f, c));
            }
        },
        PageFormat::Html => {
            if c == '&' {
                out.append("&amp;");
            } else if c == '<' {
                out.append("&lt;");
            } else if c == '>' {
                out.append("&gt;");
            } else {
                push_char(out, c);
                assert(out@ =~= old(out)@ + esc_char(f, c));
            }
        },
    }
}

/// Appends the whole text run under the format's escaping.
fn esc_append(f: PageFormat, t: &str, out: &mut String)
    ensures
        final(out)@ == old(out)@ + esc_text(f, t@),
{
    let len = t.unicode_len();
    let mut i: usize = 0;
    proof {
        assert(t@.subrange(0, t@.len() as int) =~= t@);
    }
    while i < len
        invariant
            0 <= i <= len,
            len == t@.len(),
            old(out)@ + esc_text(f, t@) == out@ + esc_text(
                f,
                t@.subrange(i as int, t@.len() as int),
            ),
        decreases len - i,
    {
        let ghost rest = t@.subrange(i as int, t@.len() as int);
        proof {
            assert(rest[0] == t@[i as int]);
            assert(rest.subrange(1, rest.len() as int) =~= t@.subrange(
                i + 1,
                t@.len() as int,
            ));
        }
        let ghost pre = out@;
        let c = t.get_char(i);
        esc_push(f, c, out);
        proof {
            assert(pre + (esc_char(f, c) + esc_text(f, t@.subrange(i + 1, t@.len() as int)))
                =~= (pre + esc_char(f, c)) + esc_text(f, t@.subrange(i + 1, t@.len() as int)));
        }
        i = i + 1;
    }
    proof {
        assert(esc_text(f, t@.subrange(t@.len() as int, t@.len() as int)) == Seq::<
            char,
        >::empty());
        assert(out@ + Seq::<char>::empty() =~= out@);
        assert(old(out)@ + esc_text(f, t@) =~= out@);
    }
}

/// The anchor's target: its `href` attribute, or empty when absent.
pub open spec fn href_of(attrs: Seq<(String, String)>) -> Seq<char> {
    match attr_spec(attrs, "href"@) {
        Some(u) => u,
        None => Seq::empty(),
    }
}

/// An anchor rendered with its target visible: `label[url]` in plain text,
/// `[label](url)` in Markdown, a native anchor in HTML.
pub open spec fn anchor_decorated(f: PageFormat, label: Seq<char>, url: Seq<char>) -> Seq<char> {
    match f {
        PageFormat::PlainText => label + "["@ + url + "]"@,
        PageFormat::Markdown => "["@ + label + "]("@ + url + ")"@,
        PageFormat::Html => "<a href=\""@ + url + "\">"@ + label + "</a>"@,
    }
}

/// Whether this tag switches the walk into table mode.
pub open spec fn is_table_tag(t: Seq<char>) -> bool {
    t == "tbody"@ || t == "tr"@ || t == "td"@ || t == "th"@
}

/// Whether this node is a table row element.
pub open spec fn is_tr(n: HtmlNode) -> bool {
    n matches HtmlNode::Element { tag, .. } && tag@ == "tr"@
}

/// The children a container node passes through.
pub open spec fn content_children(n: HtmlNode) -> Seq<HtmlNode> {
    match n {
        HtmlNode::Text(_) => Seq::empty(),
        HtmlNode::Element { children, .. } => children@,
        HtmlNode::Other { children } => children@,
    }
}

/// One node linearised in normal (non-table) mode.
pub open spec fn convert_node(f: PageFormat, n: HtmlNode, su: bool) -> Seq<char>
    decreases n, 0int,
{
    match n {
        HtmlNode::Text(t) => esc_text(f, t@),
        HtmlNode::Element { tag, attrs, children } => {
            if tag@ == "a"@ {
                let label = convert_seq(f, children@, su);
                if su {
                    anchor_decorated(f, label, href_of(attrs@))
                } else {
                    label
                }
            } else if is_table_tag(tag@) {
                table_seq(f, children@, su, true)
            } else {
                convert_seq(f, children@, su)
            }
        },
        HtmlNode::Other { children } => convert_seq(f, children@, su),
    }
}

/// A run of sibling nodes linearised in normal mode and concatenated.
pub open spec fn convert_seq(f: PageFormat, nodes: Seq<HtmlNode>, su: bool) -> Seq<char>
    decreases nodes, 1int,
{
    if nodes.len() == 0 {
        Seq::empty()
    } else {
        convert_node(f, nodes[0], su) + convert_seq(
            f,
            nodes.subrange(1, nodes.len() as int),
            su,
        )
    }
}

/// One node linearised in table mode: text is trimmed of trailing
/// whitespace, a row becomes one aligned line, anything else falls back to
/// the normal walk.
pub open spec fn table_node(f: PageFormat, n: HtmlNode, su: bool) -> Seq<char>
    decreases n, 2int,
{
    match n {
        HtmlNode::Text(t) => esc_text(f, trim_end_spec(t@)),
        HtmlNode::Element { tag, children, .. } => {
            if tag@ == "tr"@ {
                row_line(f, children@, su)
            } else {
                convert_node(f, n, su)
            }
        },
        HtmlNode::Other { .. } => convert_node(f, n, su),
    }
}

/// The row's cells: each child converted in table mode, empty results
/// dropped.
pub open spec fn row_cells(f: PageFormat, cells: Seq<HtmlNode>, su: bool) -> Seq<Seq<char>>
    decreases cells, 3int,
{
    if cells.len() == 0 {
        Seq::empty()
    } else {
        let c = table_node(f, cells[0], su);
        let rest = row_cells(f, cells.subrange(1, cells.len() as int), su);
        if c.len() == 0 {
            rest
        } else {
            seq![c] + rest
        }
    }
}

/// Cells padded to the fixed column width.
pub open spec fn padded_cells(cells: Seq<Seq<char>>) -> Seq<Seq<char>> {
    cells.map_values(|c: Seq<char>| pad_spec(c, TABLE_COL_WIDTH as int))
}

/// One aligned, newline-terminated table line from the row's children.
pub open spec fn row_line(f: PageFormat, tr_children: Seq<HtmlNode>, su: bool) -> Seq<char>
    decreases tr_children, 4int,
{
    join_with(padded_cells(row_cells(f, tr_children, su)), " | "@) + "\n"@
}

/// Markdown's header divider: one dash cell per column, aligned like a row.
pub open spec fn divider_line(k: nat) -> Seq<char> {
    join_with(Seq::new(k, |i: int| pad_spec("---"@, TABLE_COL_WIDTH as int)), " | "@) + "\n"@
}

/// A run of siblings in table mode. In Markdown, the header divider is
/// emitted after the first row of the run.
pub open spec fn table_seq(f: PageFormat, nodes: Seq<HtmlNode>, su: bool, pending: bool) -> Seq<
    char,
>
    decreases nodes, 5int,
{
    if nodes.len() == 0 {
        Seq::empty()
    } else {
        let first = nodes[0];
        if is_tr(first) {
            let line = table_node(f, first, su);
            let div = if pending && f is Markdown {
                divider_line(row_cells(f, content_children(first), su).len())
            } else {
                Seq::empty()
            };
            line + div + table_seq(f, nodes.subrange(1, nodes.len() as int), su, false)
        } else {
            table_node(f, first, su) + table_seq(
                f,
                nodes.subrange(1, nodes.len() as int),
                su,
                pending,
            )
        }
    }
}

/// Converts one node in normal mode.
pub fn exec_convert_node(f: PageFormat, n: &HtmlNode, su: bool) -> (r: String)
    ensures
        r@ == convert_node(f, *n, su),
    decreases *n, 0int,
{
    match n {
        HtmlNode::Text(t) => {
            let mut out = String::new();
            esc_append(f, t.as_str(), &mut out);
            proof {
                assert(Seq::<char>::empty() + esc_text(f, t@) =~= esc_text(f, t@));
            }
            out
        },
        HtmlNode::Element { tag, attrs, children } => {
            if str_eq(tag.as_str(), "a") {
                let label = exec_convert_nodes(f, children, su);
                if su {
                    let url = match attr_value(attrs, "href") {
                        Some(u) => u,
                        None => String::new(),
                    };
                    decorate_anchor(f, label, url.as_str())
                } else {
                    label
                }
            } else if str_eq(tag.as_str(), "tbody") || str_eq(tag.as_str(), "tr") || str_eq(
                tag.as_str(),
                "td",
            ) || str_eq(tag.as_str(), "th") {
                exec_table_seq(f, children, su)
            } else {
                exec_convert_nodes(f, children, su)
            }
        },
        HtmlNode::Other { children } => exec_convert_nodes(f, children, su),
    }
}

/// Renders a decorated anchor from its label and target.
fn decorate_anchor(f: PageFormat, label: String, url: &str) -> (r: String)
    ensures
        r@ == anchor_decorated(f, label@, url@),
{
    match f {
        PageFormat::PlainText => {
            let mut out = label;
            out.append("[");
            out.append(url);
            out.append("]");
            out
        },
        PageFormat::Markdown => {
            let mut out = "[".to_owned();
            out.append(label.as_str());
            out.append("](");
            out.append(url);
            out.append(")");
            proof {
                assert(out@ =~= anchor_decorated(f, label@, url@));
            }
            out
        },
        PageFormat::Html => {
            let mut out = "<a href=\"".to_owned();
            out.append(url);
            out.append("\">");
            out.append(label.as_str());
            out.append("</a>");
            proof {
                assert(out@ =~= anchor_decorated(f, label@, url@));
            }
            out
        },
    }
}

/// Converts a run of siblings in normal mode.
#[verifier::loop_isolation(false)]
pub fn exec_convert_nodes(f: PageFormat, nodes: &Vec<HtmlNode>, su: bool) -> (r: String)
    ensures
        r@ == convert_seq(f, nodes@, su),
    decreases nodes@, 1int,
{
    let mut out = String::new();
    let mut i: usize = 0;
    proof {
        assert(nodes@.subrange(0, nodes@.len() as int) =~= nodes@);
        assert(Seq::<char>::empty() + convert_seq(f, nodes@, su) =~= convert_seq(
            f,
            nodes@,
            su,
        ));
    }
    while i < nodes.len()
        invariant
            0 <= i <= nodes@.len(),
            convert_seq(f, nodes@, su) == out@ + convert_seq(
                f,
                nodes@.subrange(i as int, nodes@.len() as int),
                su,
            ),
        decreases nodes@.len() - i,
    {
        let ghost rest = nodes@.subrange(i as int, nodes@.len() as int);
        proof {
            assert(rest[0] == nodes@[i as int]);
            assert(rest.subrange(1, rest.len() as int) =~= nodes@.subrange(
                i + 1,
                nodes@.len() as int,
            ));
        }
        let ghost pre = out@;
        let piece = exec_convert_node(f, &nodes[i], su);
        out.append(piece.as_str());
        proof {
            assert(pre + (piece@ + convert_seq(
                f,
                nodes@.subrange(i + 1, nodes@.len() as int),
                su,
            )) =~= (pre + piece@) + convert_seq(
                f,
                nodes@.subrange(i + 1, nodes@.len() as int),
                su,
            ));
        }
        i = i + 1;
    }
    proof {
        assert(convert_seq(f, nodes@.subrange(nodes@.len() as int, nodes@.len() as int), su)
            == Seq::<char>::empty());
        assert(out@ + Seq::<char>::empty() =~= out@);
    }
    out
}

/// Converts one node in table mode.
fn exec_table_node(f: PageFormat, n: &HtmlNode, su: bool) -> (r: String)
    ensures
        r@ == table_node(f, *n, su),
    decreases *n, 2int,
{
    match n {
        HtmlNode::Text(t) => {
            let trimmed = trim_end(t.as_str());
            let mut out = String::new();
            esc_append(f, trimmed.as_str(), &mut out);
            proof {
                assert(Seq::<char>::empty() + esc_text(f, trimmed@) =~= esc_text(
                    f,
                    trimmed@,
                ));
            }
            out
        },
        HtmlNode::Element { tag, children, .. } => {
            if str_eq(tag.as_str(), "tr") {
                exec_row_line(f, children, su)
            } else {
                exec_convert_node(f, n, su)
            }
        },
        HtmlNode::Other { .. } => exec_convert_node(f, n, su),
    }
}

/// Collects the row's non-empty cells, each converted in table mode.
#[verifier::loop_isolation(false)]
fn exec_row_cells(f: PageFormat, cells: &Vec<HtmlNode>, su: bool) -> (r: Vec<String>)
    ensures
        r.deep_view() == row_cells(f, cells@, su),
    decreases cells@, 3int,
{
    let mut out: Vec<String> = Vec::new();
    let mut i: usize = 0;
    proof {
        assert(cells@.subrange(0, cells@.len() as int) =~= cells@);
        assert(out.deep_view() =~= Seq::<Seq<char>>::empty());
    }
    while i < cells.len()
        invariant
            0 <= i <= cells@.len(),
            row_cells(f, cells@, su) == out.deep_view() + row_cells(
                f,
                cells@.subrange(i as int, cells@.len() as int),
                su,
            ),
        decreases cells@.len() - i,
    {
        let ghost rest = cells@.subrange(i as int, cells@.len() as int);
        proof {
            assert(rest[0] == cells@[i as int]);
            assert(rest.subrange(1, rest.len() as int) =~= cells@.subrange(
                i + 1,
                cells@.len() as int,
            ));
        }
        let ghost pre = out.deep_view();
        let piece = exec_table_node(f, &cells[i], su);
        if !piece.as_str().is_empty() {
            let ghost pv = piece@;
            out.push(piece);
            proof {
                assert(out.deep_view() =~= pre.push(pv));
                assert(pre.push(pv) =~= pre + seq![pv]);
                assert(pre + (seq![pv] + row_cells(
                    f,
                    cells@.subrange(i + 1, cells@.len() as int),
                    su,
                )) =~= (pre + seq![pv]) + row_cells(
                    f,
                    cells@.subrange(i + 1, cells@.len() as int),
                    su,
                ));
            }
        } else {
            proof {
                assert(out.deep_view() + row_cells(
                    f,
                    cells@.subrange(i + 1, cells@.len() as int),
                    su,
                ) =~= pre + row_cells(f, cells@.subrange(i + 1, cells@.len() as int), su));
            }
        }
        i = i + 1;
    }
    proof {
        assert(row_cells(f, cells@.subrange(cells@.len() as int, cells@.len() as int), su)
            == Seq::<Seq<char>>::empty());
        assert(out.deep_view() + Seq::<Seq<char>>::empty() =~= out.deep_view());
    }
    out
}

/// Pads every cell to the fixed column width.
fn exec_pad_cells(cells: &Vec<String>) -> (r: Vec<String>)
    ensures
        r.deep_view() == padded_cells(cells.deep_view()),
{
    let mut out: Vec<String> = Vec::new();
    let mut i: usize = 0;
    while i < cells.len()
        invariant
            0 <= i <= cells@.len(),
            out.deep_view().len() == i,
            forall|j: int| 0 <= j < i ==> out.deep_view()[j] == pad_spec(
                #[trigger] cells@[j]@,
                TABLE_COL_WIDTH as int,
            ),
        decreases cells@.len() - i,
    {
        let p = pad_to(cells[i].as_str(), TABLE_COL_WIDTH);
        out.push(p);
        i = i + 1;
    }
    proof {
        assert(out.deep_view() =~= padded_cells(cells.deep_view()));
    }
    out
}

/// Builds one aligned, newline-terminated line from the row's children.
fn exec_row_line(f: PageFormat, tr_children: &Vec<HtmlNode>, su: bool) -> (r: String)
    ensures
        r@ == row_line(f, tr_children@, su),
    decreases tr_children@, 4int,
{
    let cells = exec_row_cells(f, tr_children, su);
    let padded = exec_pad_cells(&cells);
    let mut out = join_strings(&padded, " | ");
    out.append("\n");
    out
}

/// Builds Markdown's header divider for `k` columns.
fn exec_divider_line(k: usize) -> (r: String)
    ensures
        r@ == divider_line(k as nat),
{
    let mut cells: Vec<String> = Vec::new();
    let mut i: usize = 0;
    while i < k
        invariant
            0 <= i <= k,
            cells.deep_view().len() == i,
            forall|j: int| 0 <= j < i ==> cells.deep_view()[j] == pad_spec(
                "---"@,
                TABLE_COL_WIDTH as int,
            ),
        decreases k - i,
    {
        let ghost pre = cells.deep_view();
        let p = pad_to("---", TABLE_COL_WIDTH);
        let ghost pv = p@;
        cells.push(p);
        proof {
            assert(cells.deep_view() =~= pre.push(pv));
        }
        i = i + 1;
    }
    proof {
        assert(cells.deep_view() =~= Seq::new(
            k as nat,
            |i: int| pad_spec("---"@, TABLE_COL_WIDTH as int),
        ));
    }
    let mut out = join_strings(&cells, " | ");
    out.append("\n");
    out
}

/// Converts a run of siblings in table mode, inserting Markdown's header
/// divider after the first row.
#[verifier::loop_isolation(false)]
pub fn exec_table_seq(f: PageFormat, nodes: &Vec<HtmlNode>, su: bool) -> (r: String)
    ensures
        r@ == table_seq(f, nodes@, su, true),
    decreases nodes@, 5int,
{
    let mut out = String::new();
    let mut pending: bool = true;
    let mut i: usize = 0;
    proof {
        assert(nodes@.subrange(0, nodes@.len() as int) =~= nodes@);
        assert(Seq::<char>::empty() + table_seq(f, nodes@, su, true) =~= table_seq(
            f,
            nodes@,
            su,
            true,
        ));
    }
    while i < nodes.len()
        invariant
            0 <= i <= nodes@.len(),
            table_seq(f, nodes@, su, true) == out@ + table_seq(
                f,
                nodes@.subrange(i as int, nodes@.len() as int),
                su,
                pending,
            ),
        decreases nodes@.len() - i,
    {
        let ghost rest = nodes@.subrange(i as int, nodes@.len() as int);
        proof {
            assert(rest[0] == nodes@[i as int]);
            assert(rest.subrange(1, rest.len() as int) =~= nodes@.subrange(
                i + 1,
                nodes@.len() as int,
            ));
        }
        let ghost pre = out@;
        let node = &nodes[i];
        let node_is_tr = match node {
            HtmlNode::Element { tag, .. } => str_eq(tag.as_str(), "tr"),
            _ => false,
        };
        let piece = exec_table_node(f, node, su);
        out.append(piece.as_str());
        if node_is_tr {
            let ghost mid = out@;
            if pending {
                if let PageFormat::Markdown = f {
                    let div = match node {
                        HtmlNode::Element { children, .. } => {
                            let cells = exec_row_cells(f, children, su);
                            exec_divider_line(cells.len())
                        },
                        _ => String::new(),
                    };
                    out.append(div.as_str());
                }
            }
            proof {
                let tail = table_seq(f, nodes@.subrange(i + 1, nodes@.len() as int), su, false);
                let div_spec = if pending && f is Markdown {
                    divider_line(row_cells(f, content_children(nodes@[i as int]), su).len())
                } else {
                    Seq::<char>::empty()
                };
                assert(out@ =~= pre + piece@ + div_spec);
                assert(table_seq(f, rest, su, pending) == piece@ + div_spec + tail);
                assert(pre + (piece@ + div_spec + tail) =~= (pre + piece@ + div_spec) + tail);
            }
            pending = false;
        } else {
            proof {
                let tail = table_seq(f, nodes@.subrange(i + 1, nodes@.len() as int), su, pending);
                assert(table_seq(f, rest, su, pending) == piece@ + tail);
                assert(pre + (piece@ + tail) =~= (pre + piece@) + tail);
            }
        }
        i = i + 1;
    }
    proof {
        assert(table_seq(
            f,
            nodes@.subrange(nodes@.len() as int, nodes@.len() as int),
            su,
            pending,
        ) == Seq::<char>::empty());
        assert(out@ + Seq::<char>::empty() =~= out@);
    }
    out
}

/// Converts the located content subtree into the chosen format: its
/// children are linearised in order and concatenated.
pub fn convert_content(content: &HtmlNode, format: PageFormat, show_urls: bool) -> (r: String)
    ensures
        r@ == convert_seq(format, content_children(*content), show_urls),
{
    match content {
        HtmlNode::Text(_) => {
            let out = String::new();
            proof {
                assert(convert_seq(format, Seq::<HtmlNode>::empty(), show_urls) == Seq::<
                    char,
                >::empty());
            }
            out
        },
        HtmlNode::Element { children, .. } => exec_convert_nodes(format, children, show_urls),
        HtmlNode::Other { children } => exec_convert_nodes(format, children, show_urls),
    }
}

} // verus!
