//! The content tree: an owned model of a parsed HTML subtree, and the
//! locator that finds the single element holding a wiki page's rendered
//! body.

use vstd::prelude::*;

verus! {

/// One node of a parsed HTML document: literal text, an element with its
/// tag, attributes and children, or some other node kind whose children
/// are still walked.
pub enum HtmlNode {
    Text(String),
    Element { tag: String, attrs: Vec<(String, String)>, children: Vec<HtmlNode> },
    Other { children: Vec<HtmlNode> },
}

/// A parsed document or fragment: its top-level nodes in order.
pub struct HtmlDocument {
    pub roots: Vec<HtmlNode>,
}

/// The value of the first attribute with the given name, if any.
pub open spec fn attr_spec(attrs: Seq<(String, String)>, name: Seq<char>) -> Option<Seq<char>>
    decreases attrs.len(),
{
    if attrs.len() == 0 {
        None
    } else if attrs[0].0@ == name {
        Some(attrs[0].1@)
    } else {
        attr_spec(attrs.subrange(1, attrs.len() as int), name)
    }
}

/// Looks up the first attribute with the given name.
pub fn attr_value(attrs: &Vec<(String, String)>, name: &str) -> (r: Option<String>)
    ensures
        match r {
            Some(v) => attr_spec(attrs@, name@) == Some(v@),
            None => attr_spec(attrs@, name@) is None,
        },
{
    let mut i: usize = 0;
    proof {
        assert(attrs@.subrange(0, attrs@.len() as int) =~= attrs@);
    }
    while i < attrs.len()
        invariant
            0 <= i <= attrs@.len(),
            attr_spec(attrs@, name@) == attr_spec(
                attrs@.subrange(i as int, attrs@.len() as int),
                name@,
            ),
        decreases attrs@.len() - i,
    {
        let ghost rest = attrs@.subrange(i as int, attrs@.len() as int);
        proof {
            assert(rest[0] == attrs@[i as int]);
            assert(rest.subrange(1, rest.len() as int) =~= attrs@.subrange(
                i + 1,
                attrs@.len() as int,
            ));
        }
        if crate::text::str_eq(attrs[i].0.as_str(), name) {
            return Some(attrs[i].1.clone());
        }
        i = i + 1;
    }
    proof {
        assert(attrs@.subrange(attrs@.len() as int, attrs@.len() as int) =~= Seq::<(
            String,
            String,
        )>::empty());
    }
    None
}

/// Whether this node is the page's content container: the `div` whose
/// class marks the rendered page body.
pub open spec fn is_content_container(n: HtmlNode) -> bool {
    &&& n matches HtmlNode::Element { tag, attrs, .. }
    &&& tag@ == "div"@
    &&& attr_spec(attrs@, "class"@) == Some("mw-parser-output"@)
}

/// The first content container in a preorder walk of the node, if any.
pub open spec fn find_content_in_node(n: HtmlNode) -> Option<HtmlNode>
    decreases n, 0int,
{
    if is_content_container(n) {
        Some(n)
    } else {
        match n {
            HtmlNode::Text(_) => None,
            HtmlNode::Element { children, .. } => find_content_in_nodes(children@),
            HtmlNode::Other { children } => find_content_in_nodes(children@),
        }
    }
}

/// The first content container in a preorder walk of the nodes, if any.
pub open spec fn find_content_in_nodes(nodes: Seq<HtmlNode>) -> Option<HtmlNode>
    decreases nodes, 1int,
{
    if nodes.len() == 0 {
        None
    } else {
        match find_content_in_node(nodes[0]) {
            Some(c) => Some(c),
            None => find_content_in_nodes(nodes.subrange(1, nodes.len() as int)),
        }
    }
}

/// Tests the current node, then descends into its children.
fn locate_in_node(n: &HtmlNode) -> (r: Option<&HtmlNode>)
    ensures
        match r {
            Some(c) => find_content_in_node(*n) == Some(*c),
            None => find_content_in_node(*n) is None,
        },
    decreases *n, 0int,
{
    let is_container = match n {
        HtmlNode::Element { tag, attrs, .. } => crate::text::str_eq(tag.as_str(), "div")
            && match attr_value(attrs, "class") {
            Some(class) => crate::text::str_eq(class.as_str(), "mw-parser-output"),
            None => false,
        },
        _ => false,
    };
    if is_container {
        return Some(n);
    }
    match n {
        HtmlNode::Text(_) => None,
        HtmlNode::Element { children, .. } => locate_in_nodes(children),
        HtmlNode::Other { children } => locate_in_nodes(children),
    }
}

/// Walks the nodes left to right until a content container turns up.
#[verifier::loop_isolation(false)]
fn locate_in_nodes(nodes: &Vec<HtmlNode>) -> (r: Option<&HtmlNode>)
    ensures
        match r {
            Some(c) => find_content_in_nodes(nodes@) == Some(*c),
            None => find_content_in_nodes(nodes@) is None,
        },
    decreases nodes@, 1int,
{
    let mut i: usize = 0;
    proof {
        assert(nodes@.subrange(0, nodes@.len() as int) =~= nodes@);
    }
    while i < nodes.len()
        invariant
            0 <= i <= nodes@.len(),
            find_content_in_nodes(nodes@) == find_content_in_nodes(
                nodes@.subrange(i as int, nodes@.len() as int),
            ),
        decreases nodes@.len() - i,
    {
        let ghost rest = nodes@.subrange(i as int, nodes@.len() as int);
        proof {
            assert(rest[0] == nodes@[i as int]);
            assert(rest.subrange(1, rest.len() as int) =~= nodes@.subrange(
                i + 1,
                nodes@.len() as int,
            ));
        }
        let found = locate_in_node(&nodes[i]);
        if let Some(c) = found {
            return Some(c);
        }
        i = i + 1;
    }
    proof {
        assert(nodes@.subrange(nodes@.len() as int, nodes@.len() as int) =~= Seq::<
            HtmlNode,
        >::empty());
    }
    None
}

/// Locates the single element subtree holding the page's rendered body;
/// absence means "no page content", not an error.
pub fn get_page_content(document: &HtmlDocument) -> (r: Option<&HtmlNode>)
    ensures
        match r {
            Some(c) => find_content_in_nodes(document.roots@) == Some(*c),
            None => find_content_in_nodes(document.roots@) is None,
        },
{
    locate_in_nodes(&document.roots)
}

} // verus!
