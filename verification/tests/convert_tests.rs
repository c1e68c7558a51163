use archwiki_rs::dom::HtmlDocument;
use archwiki_rs::dom::HtmlNode;
use archwiki_rs::error::WikiError;
use archwiki_rs::formats::convert_content;
use archwiki_rs::formats::html::convert_page_to_html;
use archwiki_rs::formats::markdown::convert_page_to_markdown;
use archwiki_rs::formats::plain_text::convert_page_to_plain_text;
use archwiki_rs::formats::plain_text::wrap_text_in_url;
use archwiki_rs::formats::PageFormat;
use archwiki_rs::search::TextSearchItem;

fn text(s: &str) -> HtmlNode {
    HtmlNode::Text(s.to_owned())
}

fn elem(tag: &str, attrs: &[(&str, &str)], children: Vec<HtmlNode>) -> HtmlNode {
    HtmlNode::Element {
        tag: tag.to_owned(),
        attrs: attrs
            .iter()
            .map(|(k, v)| ((*k).to_owned(), (*v).to_owned()))
            .collect(),
        children,
    }
}

fn content_doc(children: Vec<HtmlNode>) -> HtmlDocument {
    HtmlDocument {
        roots: vec![elem(
            "div",
            &[("class", "mw-parser-output")],
            children,
        )],
    }
}

#[test]
fn test_conversion_is_deterministic() {
    let doc = content_doc(vec![
        text("Hello "),
        elem("a", &[("href", "https://example.org")], vec![text("link")]),
        elem("p", &[], vec![text("world")]),
    ]);
    let pages: Vec<String> = vec![];
    let first = convert_page_to_plain_text(&doc, "x", &pages, true).unwrap();
    let second = convert_page_to_plain_text(&doc, "x", &pages, true).unwrap();
    assert_eq!(first, second);
}

#[test]
fn test_anchor_plain_text_with_urls() {
    let doc = content_doc(vec![elem(
        "a",
        &[("href", "https://example.org")],
        vec![text("label")],
    )]);
    let pages: Vec<String> = vec![];
    let out = convert_page_to_plain_text(&doc, "x", &pages, true).unwrap();
    assert_eq!(out, "label[https://example.org]");

    let hidden = convert_page_to_plain_text(&doc, "x", &pages, false).unwrap();
    assert_eq!(hidden, "label");
}

#[test]
fn test_anchor_markdown_with_urls() {
    let doc = content_doc(vec![elem(
        "a",
        &[("href", "https://example.org")],
        vec![text("label")],
    )]);
    let pages: Vec<String> = vec![];
    let out = convert_page_to_markdown(&doc, "x", &pages, true).unwrap();
    assert_eq!(out, "[label](https://example.org)");
}

#[test]
fn test_anchor_empty_label() {
    let doc = content_doc(vec![elem("a", &[("href", "u")], vec![])]);
    let pages: Vec<String> = vec![];
    let out = convert_page_to_plain_text(&doc, "x", &pages, true).unwrap();
    assert_eq!(out, "[u]");
}

#[test]
fn test_anchor_html_native() {
    let doc = content_doc(vec![elem("a", &[("href", "u")], vec![text("t")])]);
    let pages: Vec<String> = vec![];
    let out = convert_page_to_html(&doc, "x", &pages, true).unwrap();
    assert_eq!(out, "<a href=\"u\">t</a>");
}

#[test]
fn test_wrap_text_in_url() {
    assert_eq!(wrap_text_in_url("label", "url"), "label[url]");
}

#[test]
fn test_plain_text_no_bracket_decoration() {
    let doc = content_doc(vec![
        text("alpha "),
        elem("p", &[], vec![text("beta")]),
        elem("a", &[("href", "https://example.org")], vec![text("gamma")]),
    ]);
    let pages: Vec<String> = vec![];
    let out = convert_page_to_plain_text(&doc, "x", &pages, false).unwrap();
    assert!(!out.contains('['));
    assert!(!out.contains(']'));
}

#[test]
fn test_table_two_rows_plain_text() {
    let table = elem(
        "tbody",
        &[],
        vec![
            elem(
                "tr",
                &[],
                vec![
                    elem("td", &[], vec![text("r1c1")]),
                    elem("td", &[], vec![text("r1c2")]),
                ],
            ),
            elem(
                "tr",
                &[],
                vec![
                    elem("td", &[], vec![text("r2c1")]),
                    elem("td", &[], vec![text("r2c2")]),
                ],
            ),
        ],
    );
    let doc = content_doc(vec![table]);
    let pages: Vec<String> = vec![];
    let out = convert_page_to_plain_text(&doc, "x", &pages, false).unwrap();

    let expected = format!("{:<25} | {:<25}\n{:<25} | {:<25}\n", "r1c1", "r1c2", "r2c1", "r2c2");
    assert_eq!(out, expected);

    let non_empty: Vec<&str> = out.split('\n').filter(|l| !l.is_empty()).collect();
    assert_eq!(non_empty.len(), 2);
    for line in non_empty {
        assert_eq!(line.matches(" | ").count(), 1);
    }
}

#[test]
fn test_table_two_rows_markdown_divider() {
    let table = elem(
        "tbody",
        &[],
        vec![
            elem(
                "tr",
                &[],
                vec![
                    elem("td", &[], vec![text("a")]),
                    elem("td", &[], vec![text("b")]),
                ],
            ),
            elem(
                "tr",
                &[],
                vec![
                    elem("td", &[], vec![text("c")]),
                    elem("td", &[], vec![text("d")]),
                ],
            ),
        ],
    );
    let doc = content_doc(vec![table]);
    let pages: Vec<String> = vec![];
    let out = convert_page_to_markdown(&doc, "x", &pages, false).unwrap();

    let expected = format!(
        "{:<25} | {:<25}\n{:<25} | {:<25}\n{:<25} | {:<25}\n",
        "a", "b", "---", "---", "c", "d"
    );
    assert_eq!(out, expected);

    let non_empty: Vec<&str> = out.split('\n').filter(|l| !l.is_empty()).collect();
    assert_eq!(non_empty.len(), 3);
    for line in non_empty {
        assert_eq!(line.matches(" | ").count(), 1);
    }
}

#[test]
fn test_markdown_escaping() {
    let doc = content_doc(vec![text("a*b_c[d]")]);
    let pages: Vec<String> = vec![];
    let out = convert_page_to_markdown(&doc, "x", &pages, false).unwrap();
    assert_eq!(out, "a\\*b\\_c\\[d\\]");
}

#[test]
fn test_html_escaping() {
    let doc = content_doc(vec![text("a<b & c>d")]);
    let pages: Vec<String> = vec![];
    let out = convert_page_to_html(&doc, "x", &pages, false).unwrap();
    assert_eq!(out, "a&lt;b &amp; c&gt;d");
}

#[test]
fn test_containers_pass_through() {
    let doc = content_doc(vec![elem(
        "section",
        &[],
        vec![elem("p", &[], vec![text("one ")]), text("two")],
    )]);
    let pages: Vec<String> = vec![];
    let out = convert_page_to_plain_text(&doc, "x", &pages, false).unwrap();
    assert_eq!(out, "one two");
}

#[test]
fn test_no_content_yields_suggestions() {
    let doc = HtmlDocument {
        roots: vec![elem("div", &[("class", "other")], vec![text("nope")])],
    };
    let pages: Vec<String> = vec![
        "Network configuration".to_owned(),
        "Xorg".to_owned(),
    ];
    match convert_page_to_plain_text(&doc, "Network", &pages, false) {
        Err(WikiError::NoPageFound(msg)) => {
            assert_eq!(msg, "Network configuration\nXorg");
        }
        _ => panic!("expected a 'NoPageFound' outcome"),
    }
}

#[test]
fn test_convert_content_direct() {
    let container = elem("div", &[], vec![text("plain ")]);
    let out = convert_content(&container, PageFormat::PlainText, false);
    assert_eq!(out, "plain ");
}

#[test]
fn test_prettify_snippet() {
    let mut item = TextSearchItem {
        title: "t".to_owned(),
        snippet: "raw".to_owned(),
    };
    let doc = HtmlDocument {
        roots: vec![
            text("foo\nbar "),
            elem("span", &[], vec![text("baz")]),
        ],
    };
    item.prettify_snippet(&doc);
    assert_eq!(item.snippet, "foo bar baz");
    assert_eq!(item.title, "t");
}
