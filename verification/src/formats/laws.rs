//! Proved laws of the format converter: determinism, the rendered shape
//! of anchors and tables, and that plain-text conversion with hidden URLs
//! introduces no bracket decoration.

use crate::dom::HtmlNode;
use crate::formats::anchor_decorated;
use crate::formats::content_children;
use crate::formats::convert_node;
use crate::formats::convert_seq;
use crate::formats::divider_line;
use crate::formats::esc_char;
use crate::formats::esc_text;
use crate::formats::href_of;
use crate::formats::is_tr;
use crate::formats::padded_cells;
use crate::formats::row_cells;
use crate::formats::row_line;
use crate::formats::table_node;
use crate::formats::table_seq;
use crate::formats::PageFormat;
use crate::formats::TABLE_COL_WIDTH;
use crate::text::join_tail;
use crate::text::join_with;
use crate::text::pad_spec;
use crate::text::spaces;
use crate::text::trim_end_spec;
use vstd::prelude::*;

verus! {

/// Conversion is deterministic: any two conversion results of the same
/// content tree, format and options are byte-identical.
pub proof fn lemma_conversion_deterministic(
    f: PageFormat,
    nodes: Seq<HtmlNode>,
    su: bool,
    r1: Seq<char>,
    r2: Seq<char>,
)
    requires
        r1 == convert_seq(f, nodes, su),
        r2 == convert_seq(f, nodes, su),
    ensures
        r1 == r2,
{
}

/// The anchor law: with URLs shown, an anchor yields its label followed
/// by the bracketed target in plain text and `[label](url)` in Markdown;
/// the label may be empty when the anchor wraps no text. With URLs
/// hidden, only the label is emitted.
pub proof fn lemma_anchor_rendering(tag: String, attrs: Vec<(String, String)>, children: Vec<
    HtmlNode,
>)
    requires
        tag@ == "a"@,
    ensures
        convert_node(PageFormat::PlainText, (HtmlNode::Element { tag, attrs, children }), true)
            == convert_seq(PageFormat::PlainText, children@, true) + "["@ + href_of(attrs@)
            + "]"@,
        convert_node(PageFormat::Markdown, (HtmlNode::Element { tag, attrs, children }), true)
            == "["@ + convert_seq(PageFormat::Markdown, children@, true) + "]("@ + href_of(
            attrs@,
        ) + ")"@,
        convert_node(PageFormat::PlainText, (HtmlNode::Element { tag, attrs, children }), false)
            == convert_seq(PageFormat::PlainText, children@, false),
{
    let n = (HtmlNode::Element { tag, attrs, children });
    assert(convert_node(PageFormat::PlainText, n, true) == anchor_decorated(
        PageFormat::PlainText,
        convert_seq(PageFormat::PlainText, children@, true),
        href_of(attrs@),
    ));
    assert(convert_node(PageFormat::Markdown, n, true) == anchor_decorated(
        PageFormat::Markdown,
        convert_seq(PageFormat::Markdown, children@, true),
        href_of(attrs@),
    ));
}

/// Joining exactly two cells puts exactly one separator between them.
pub proof fn lemma_join_two(cells: Seq<Seq<char>>, sep: Seq<char>)
    requires
        cells.len() == 2,
    ensures
        join_with(cells, sep) == cells[0] + sep + cells[1],
{
    let rest = cells.subrange(1, 2);
    assert(rest[0] == cells[1]);
    assert(rest.subrange(1, 1) =~= Seq::<Seq<char>>::empty());
    assert(join_tail(rest.subrange(1, 1), sep) == Seq::<char>::empty());
    assert(join_with(cells, sep) =~= cells[0] + sep + cells[1]);
}

/// The table law: a body of exactly two rows converts to the first row's
/// line followed by the second row's line; Markdown adds its header
/// divider, sized to the first row, between them. A two-cell row's line is
/// its two padded cells around a single separator, newline-terminated.
pub proof fn lemma_table_shape(table: HtmlNode, f: PageFormat, su: bool)
    requires
        table matches HtmlNode::Element { tag, children, .. } && tag@ == "tbody"@
            && children@.len() == 2 && is_tr(children@[0]) && is_tr(children@[1]),
    ensures
        !(f is Markdown) ==> convert_node(f, table, su) == row_line(
            f,
            content_children(table->Element_children@[0]),
            su,
        ) + row_line(f, content_children(table->Element_children@[1]), su),
        f is Markdown ==> convert_node(f, table, su) == row_line(
            f,
            content_children(table->Element_children@[0]),
            su,
        ) + divider_line(
            row_cells(f, content_children(table->Element_children@[0]), su).len(),
        ) + row_line(f, content_children(table->Element_children@[1]), su),
        forall|rc: Seq<HtmlNode>|
            row_cells(f, rc, su).len() == 2 ==> #[trigger] row_line(f, rc, su) == pad_spec(
                row_cells(f, rc, su)[0],
                TABLE_COL_WIDTH as int,
            ) + " | "@ + pad_spec(row_cells(f, rc, su)[1], TABLE_COL_WIDTH as int) + "\n"@,
{
    reveal_strlit("tbody");
    reveal_strlit("tr");
    reveal_strlit("a");
    let rows = table->Element_children@;
    assert(rows[0] matches HtmlNode::Element { tag, children, .. } && tag@ == "tr"@);
    assert(rows[1] matches HtmlNode::Element { tag, children, .. } && tag@ == "tr"@);
    assert("tbody"@ != "a"@) by {
        assert("tbody"@.len() == 5 && "a"@.len() == 1);
    }
    assert("tr"@ != "a"@) by {
        assert("tr"@.len() == 2 && "a"@.len() == 1);
    }
    assert(convert_node(f, table, su) == table_seq(f, rows, su, true));
    let tail = rows.subrange(1, 2);
    assert(tail[0] == rows[1]);
    assert(tail.subrange(1, 1) =~= Seq::<HtmlNode>::empty());
    assert(table_seq(f, Seq::<HtmlNode>::empty(), su, false) == Seq::<char>::empty());
    let line0 = row_line(f, content_children(rows[0]), su);
    let line1 = row_line(f, content_children(rows[1]), su);
    assert(table_node(f, rows[0], su) == line0);
    assert(table_node(f, rows[1], su) == line1);
    assert(table_seq(f, tail, su, false) =~= line1);
    if f is Markdown {
        let div = divider_line(row_cells(f, content_children(rows[0]), su).len());
        assert(table_seq(f, rows, su, true) == line0 + div + table_seq(f, tail, su, false));
        assert(line0 + div + table_seq(f, tail, su, false) =~= line0 + div + line1);
    } else {
        assert(table_seq(f, rows, su, true) == line0 + Seq::<char>::empty() + table_seq(
            f,
            tail,
            su,
            false,
        ));
        assert(line0 + Seq::<char>::empty() + table_seq(f, tail, su, false) =~= line0 + line1);
    }
    assert forall|rc: Seq<HtmlNode>| row_cells(f, rc, su).len() == 2 implies #[trigger] row_line(
        f,
        rc,
        su,
    ) == pad_spec(row_cells(f, rc, su)[0], TABLE_COL_WIDTH as int) + " | "@ + pad_spec(
        row_cells(f, rc, su)[1],
        TABLE_COL_WIDTH as int,
    ) + "\n"@ by {
        let cells = row_cells(f, rc, su);
        lemma_join_two(padded_cells(cells), " | "@);
        assert(padded_cells(cells)[0] == pad_spec(cells[0], TABLE_COL_WIDTH as int));
        assert(padded_cells(cells)[1] == pad_spec(cells[1], TABLE_COL_WIDTH as int));
        assert(row_line(f, rc, su) =~= pad_spec(cells[0], TABLE_COL_WIDTH as int) + " | "@
            + pad_spec(cells[1], TABLE_COL_WIDTH as int) + "\n"@);
    }
}

/// Whether any text node under this node contains the character.
pub open spec fn text_has_char(n: HtmlNode, c: char) -> bool
    decreases n, 0int,
{
    match n {
        HtmlNode::Text(t) => t@.contains(c),
        HtmlNode::Element { children, .. } => texts_have_char(children@, c),
        HtmlNode::Other { children } => texts_have_char(children@, c),
    }
}

/// Whether any text node under these nodes contains the character.
pub open spec fn texts_have_char(nodes: Seq<HtmlNode>, c: char) -> bool
    decreases nodes, 1int,
{
    if nodes.len() == 0 {
        false
    } else {
        text_has_char(nodes[0], c) || texts_have_char(nodes.subrange(1, nodes.len() as int), c)
    }
}

proof fn lemma_contains_eq(a: Seq<char>, b: Seq<char>, c: char)
    requires
        a == b,
        !b.contains(c),
    ensures
        !a.contains(c),
{
    if a.contains(c) {
        let i = choose|i: int| 0 <= i < a.len() && #[trigger] a[i] == c;
        assert(b[i] == c);
    }
}

proof fn lemma_contains_concat(a: Seq<char>, b: Seq<char>, c: char)
    ensures
        (a + b).contains(c) <==> a.contains(c) || b.contains(c),
{
    if (a + b).contains(c) {
        let i = choose|i: int| 0 <= i < (a + b).len() && (a + b)[i] == c;
        if i < a.len() {
            assert(a[i] == c);
        } else {
            assert(b[i - a.len()] == c);
        }
    }
    if a.contains(c) {
        let i = choose|i: int| 0 <= i < a.len() && a[i] == c;
        assert((a + b)[i] == c);
    }
    if b.contains(c) {
        let i = choose|i: int| 0 <= i < b.len() && b[i] == c;
        assert((a + b)[a.len() + i] == c);
    }
}

proof fn lemma_esc_plain_id(t: Seq<char>)
    ensures
        esc_text(PageFormat::PlainText, t) == t,
    decreases t.len(),
{
    if t.len() == 0 {
        assert(esc_text(PageFormat::PlainText, t) =~= t);
    } else {
        lemma_esc_plain_id(t.subrange(1, t.len() as int));
        assert(esc_char(PageFormat::PlainText, t[0]) == seq![t[0]]);
        assert(seq![t[0]] + t.subrange(1, t.len() as int) =~= t);
    }
}

proof fn lemma_trim_contains(t: Seq<char>, c: char)
    requires
        trim_end_spec(t).contains(c),
    ensures
        t.contains(c),
    decreases t.len(),
{
    if t.len() == 0 {
    } else if crate::text::is_ws(t.last()) {
        lemma_trim_contains(t.drop_last(), c);
        let i = choose|i: int| 0 <= i < t.drop_last().len() && t.drop_last()[i] == c;
        assert(t[i] == c);
    }
}

proof fn lemma_pad_contains(s: Seq<char>, w: int, c: char)
    requires
        pad_spec(s, w).contains(c),
        c != ' ',
    ensures
        s.contains(c),
{
    if s.len() < w {
        lemma_contains_concat(s, spaces(w - s.len()), c);
        if spaces(w - s.len()).contains(c) {
            let sp = spaces(w - s.len());
            let i = choose|i: int| 0 <= i < sp.len() && #[trigger] sp[i] == c;
            assert(sp[i] == ' ');
        }
    }
}

proof fn lemma_join_contains(cells: Seq<Seq<char>>, sep: Seq<char>, c: char)
    requires
        join_with(cells, sep).contains(c),
        !sep.contains(c),
    ensures
        exists|k: int| 0 <= k < cells.len() && (#[trigger] cells[k]).contains(c),
    decreases cells.len(),
{
    if cells.len() == 0 {
    } else {
        let rest = cells.subrange(1, cells.len() as int);
        lemma_contains_concat(cells[0], join_tail(rest, sep), c);
        if cells[0].contains(c) {
        } else {
            lemma_join_tail_contains(rest, sep, c);
            let k = choose|k: int| 0 <= k < rest.len() && (#[trigger] rest[k]).contains(c);
            assert(cells[k + 1].contains(c));
        }
    }
}

proof fn lemma_join_tail_contains(cells: Seq<Seq<char>>, sep: Seq<char>, c: char)
    requires
        join_tail(cells, sep).contains(c),
        !sep.contains(c),
    ensures
        exists|k: int| 0 <= k < cells.len() && (#[trigger] cells[k]).contains(c),
    decreases cells.len(),
{
    if cells.len() == 0 {
    } else {
        let rest = cells.subrange(1, cells.len() as int);
        lemma_contains_concat(sep + cells[0], join_tail(rest, sep), c);
        lemma_contains_concat(sep, cells[0], c);
        if cells[0].contains(c) {
        } else if join_tail(rest, sep).contains(c) {
            lemma_join_tail_contains(rest, sep, c);
            let k = choose|k: int| 0 <= k < rest.len() && (#[trigger] rest[k]).contains(c);
            assert(cells[k + 1].contains(c));
        }
    }
}

/// The plain-text decoration law, node form: with URLs hidden, a
/// character the plain-text converter can introduce is only a space, a
/// column separator or a newline; any other character of the output
/// stems from a text node. In particular a tree whose text holds no `[`
/// converts without any bracket decoration.
pub proof fn lemma_plain_no_decoration_node(n: HtmlNode, c: char)
    requires
        !text_has_char(n, c),
        c != ' ' && c != '|' && c != '\n',
    ensures
        !convert_node(PageFormat::PlainText, n, false).contains(c),
    decreases n, 0int,
{
    let f = PageFormat::PlainText;
    match n {
        HtmlNode::Text(t) => {
            lemma_esc_plain_id(t@);
            lemma_contains_eq(convert_node(f, n, false), t@, c);
        },
        HtmlNode::Element { tag, attrs, children } => {
            if tag@ == "a"@ {
                lemma_plain_no_decoration_nodes(children@, c);
                lemma_contains_eq(
                    convert_node(f, n, false),
                    convert_seq(f, children@, false),
                    c,
                );
            } else if crate::formats::is_table_tag(tag@) {
                lemma_plain_no_decoration_table_seq(children@, c);
                lemma_contains_eq(
                    convert_node(f, n, false),
                    table_seq(f, children@, false, true),
                    c,
                );
            } else {
                lemma_plain_no_decoration_nodes(children@, c);
                lemma_contains_eq(
                    convert_node(f, n, false),
                    convert_seq(f, children@, false),
                    c,
                );
            }
        },
        HtmlNode::Other { children } => {
            lemma_plain_no_decoration_nodes(children@, c);
            lemma_contains_eq(convert_node(f, n, false), convert_seq(f, children@, false), c);
        },
    }
}

/// The plain-text decoration law over a run of siblings.
pub proof fn lemma_plain_no_decoration_nodes(nodes: Seq<HtmlNode>, c: char)
    requires
        !texts_have_char(nodes, c),
        c != ' ' && c != '|' && c != '\n',
    ensures
        !convert_seq(PageFormat::PlainText, nodes, false).contains(c),
    decreases nodes, 1int,
{
    let f = PageFormat::PlainText;
    if nodes.len() == 0 {
    } else {
        let rest = nodes.subrange(1, nodes.len() as int);
        lemma_plain_no_decoration_node(nodes[0], c);
        lemma_plain_no_decoration_nodes(rest, c);
        lemma_contains_concat(convert_node(f, nodes[0], false), convert_seq(f, rest, false), c);
    }
}

proof fn lemma_plain_no_decoration_table_node(n: HtmlNode, c: char)
    requires
        !text_has_char(n, c),
        c != ' ' && c != '|' && c != '\n',
    ensures
        !table_node(PageFormat::PlainText, n, false).contains(c),
    decreases n, 2int,
{
    let f = PageFormat::PlainText;
    match n {
        HtmlNode::Text(t) => {
            lemma_esc_plain_id(trim_end_spec(t@));
            if table_node(f, n, false).contains(c) {
                lemma_trim_contains(t@, c);
            }
        },
        HtmlNode::Element { tag, children, .. } => {
            if tag@ == "tr"@ {
                lemma_plain_no_decoration_row(children@, c);
            } else {
                lemma_plain_no_decoration_node(n, c);
            }
        },
        HtmlNode::Other { .. } => {
            lemma_plain_no_decoration_node(n, c);
        },
    }
}

proof fn lemma_plain_no_decoration_cells(cells: Seq<HtmlNode>, c: char)
    requires
        !texts_have_char(cells, c),
        c != ' ' && c != '|' && c != '\n',
    ensures
        forall|k: int|
            0 <= k < row_cells(PageFormat::PlainText, cells, false).len() ==> !(
            #[trigger] row_cells(PageFormat::PlainText, cells, false)[k]).contains(c),
    decreases cells, 3int,
{
    let f = PageFormat::PlainText;
    if cells.len() == 0 {
    } else {
        let rest = cells.subrange(1, cells.len() as int);
        lemma_plain_no_decoration_table_node(cells[0], c);
        lemma_plain_no_decoration_cells(rest, c);
        let piece = table_node(f, cells[0], false);
        let out = row_cells(f, cells, false);
        let rcr = row_cells(f, rest, false);
        if piece.len() == 0 {
        } else {
            assert(forall|k: int|
                1 <= k < out.len() ==> #[trigger] out[k] == rcr[k - 1]);
        }
    }
}

proof fn lemma_plain_no_decoration_row(tr_children: Seq<HtmlNode>, c: char)
    requires
        !texts_have_char(tr_children, c),
        c != ' ' && c != '|' && c != '\n',
    ensures
        !row_line(PageFormat::PlainText, tr_children, false).contains(c),
    decreases tr_children, 4int,
{
    let f = PageFormat::PlainText;
    reveal_strlit(" | ");
    reveal_strlit("\n");
    let cells = row_cells(f, tr_children, false);
    lemma_plain_no_decoration_cells(tr_children, c);
    assert(!" | "@.contains(c)) by {
        if " | "@.contains(c) {
            let i = choose|i: int| 0 <= i < " | "@.len() && " | "@[i] == c;
            assert(i == 0 || i == 1 || i == 2);
        }
    }
    assert(!"\n"@.contains(c)) by {
        if "\n"@.contains(c) {
            let i = choose|i: int| 0 <= i < "\n"@.len() && "\n"@[i] == c;
            assert(i == 0);
        }
    }
    lemma_contains_concat(join_with(padded_cells(cells), " | "@), "\n"@, c);
    if join_with(padded_cells(cells), " | "@).contains(c) {
        lemma_join_contains(padded_cells(cells), " | "@, c);
        let k = choose|k: int|
            0 <= k < padded_cells(cells).len() && (#[trigger] padded_cells(cells)[k]).contains(
                c,
            );
        lemma_pad_contains(cells[k], TABLE_COL_WIDTH as int, c);
    }
}

proof fn lemma_plain_no_decoration_table_seq(nodes: Seq<HtmlNode>, c: char)
    requires
        !texts_have_char(nodes, c),
        c != ' ' && c != '|' && c != '\n',
    ensures
        forall|pending: bool|
            !(#[trigger] table_seq(PageFormat::PlainText, nodes, false, pending)).contains(c),
    decreases nodes, 5int,
{
    let f = PageFormat::PlainText;
    if nodes.len() == 0 {
    } else {
        let rest = nodes.subrange(1, nodes.len() as int);
        lemma_plain_no_decoration_table_node(nodes[0], c);
        lemma_plain_no_decoration_table_seq(rest, c);
        assert forall|pending: bool| !(#[trigger] table_seq(f, nodes, false, pending)).contains(
            c,
        ) by {
            if is_tr(nodes[0]) {
                lemma_contains_concat(
                    table_node(f, nodes[0], false) + Seq::<char>::empty(),
                    table_seq(f, rest, false, false),
                    c,
                );
                lemma_contains_concat(table_node(f, nodes[0], false), Seq::<char>::empty(), c);
            } else {
                lemma_contains_concat(
                    table_node(f, nodes[0], false),
                    table_seq(f, rest, false, pending),
                    c,
                );
            }
        }
    }
}

} // verus!
