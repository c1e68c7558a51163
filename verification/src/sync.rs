//! The sync engine's decisions: extracting category links from the index
//! page, deriving category names, and merging per-category fetch results
//! into the catalogue, swallowing single-category failures.

use crate::dom::HtmlDocument;
use crate::dom::HtmlNode;
use crate::formats::href_of;
use crate::text::str_eq;
use vstd::prelude::*;
use vstd::string::StrSliceExecFns;
use vstd::string::StringExecFns;

verus! {

/// The value of the first entry with the given key, if any.
pub open spec fn entries_lookup(
    entries: Seq<(Seq<char>, Seq<Seq<char>>)>,
    name: Seq<char>,
) -> Option<Seq<Seq<char>>>
    decreases entries.len(),
{
    if entries.len() == 0 {
        None
    } else if entries[0].0 == name {
        Some(entries[0].1)
    } else {
        entries_lookup(entries.subrange(1, entries.len() as int), name)
    }
}

proof fn lemma_lookup_none(entries: Seq<(Seq<char>, Seq<Seq<char>>)>, name: Seq<char>)
    ensures
        (entries_lookup(entries, name) is None) <==> (forall|j: int|
            0 <= j < entries.len() ==> (#[trigger] entries[j]).0 != name),
    decreases entries.len(),
{
    if entries.len() == 0 {
    } else {
        let rest = entries.subrange(1, entries.len() as int);
        lemma_lookup_none(rest, name);
        assert(forall|j: int| 0 <= j < rest.len() ==> #[trigger] rest[j] == entries[j + 1]);
        assert(forall|j: int|
            1 <= j < entries.len() ==> #[trigger] entries[j] == rest[j - 1]);
    }
}

proof fn lemma_lookup_push(
    entries: Seq<(Seq<char>, Seq<Seq<char>>)>,
    e: (Seq<char>, Seq<Seq<char>>),
    name: Seq<char>,
)
    ensures
        entries_lookup(entries.push(e), name) == (match entries_lookup(entries, name) {
            Some(v) => Some(v),
            None => if e.0 == name {
                Some(e.1)
            } else {
                None
            },
        }),
    decreases entries.len(),
{
    let pushed = entries.push(e);
    if entries.len() == 0 {
        assert(pushed.len() == 1 && pushed[0] == e);
        assert(pushed.subrange(1, 1) =~= Seq::<(Seq<char>, Seq<Seq<char>>)>::empty());
        assert(entries_lookup(pushed.subrange(1, 1), name) is None);
        assert(entries_lookup(entries, name) is None);
        if e.0 == name {
            assert(entries_lookup(pushed, name) == Some(e.1));
        } else {
            assert(entries_lookup(pushed, name) is None);
        }
    } else {
        assert(pushed[0] == entries[0]);
        assert(pushed.subrange(1, pushed.len() as int) =~= entries.subrange(
            1,
            entries.len() as int,
        ).push(e));
        lemma_lookup_push(entries.subrange(1, entries.len() as int), e, name);
        if entries[0].0 == name {
            assert(entries_lookup(pushed, name) == Some(entries[0].1));
            assert(entries_lookup(entries, name) == Some(entries[0].1));
        } else {
            assert(entries_lookup(pushed, name) == entries_lookup(
                pushed.subrange(1, pushed.len() as int),
                name,
            ));
            assert(entries_lookup(entries, name) == entries_lookup(
                entries.subrange(1, entries.len() as int),
                name,
            ));
        }
    }
}

proof fn lemma_lookup_update(
    entries: Seq<(Seq<char>, Seq<Seq<char>>)>,
    i: int,
    e: (Seq<char>, Seq<Seq<char>>),
    name: Seq<char>,
)
    requires
        0 <= i < entries.len(),
        entries[i].0 == e.0,
        forall|j: int| 0 <= j < i ==> (#[trigger] entries[j]).0 != e.0,
    ensures
        entries_lookup(entries.update(i, e), name) == if name == e.0 {
            Some(e.1)
        } else {
            entries_lookup(entries, name)
        },
    decreases entries.len(),
{
    let updated = entries.update(i, e);
    if i == 0 {
        assert(updated[0] == e);
        assert(updated.subrange(1, updated.len() as int) =~= entries.subrange(
            1,
            entries.len() as int,
        ));
        if name != e.0 {
            assert(entries[0].0 == e.0);
        }
    } else {
        assert(updated[0] == entries[0]);
        assert(updated.subrange(1, updated.len() as int) =~= entries.subrange(
            1,
            entries.len() as int,
        ).update(i - 1, e));
        let rest = entries.subrange(1, entries.len() as int);
        assert(rest[i - 1] == entries[i]);
        assert(forall|j: int| 0 <= j < i - 1 ==> #[trigger] rest[j] == entries[j + 1]);
        lemma_lookup_update(rest, i - 1, e, name);
        assert(entries[0].0 != e.0);
    }
}

/// The catalogue: category names, each with its ordered list of page
/// titles, every category present once.
pub struct Catalogue {
    pub entries: Vec<(String, Vec<String>)>,
}

impl Catalogue {
    /// Category names are unique.
    pub open spec fn wf(self) -> bool {
        forall|i: int, j: int|
            0 <= i < j < self.entries@.len() ==> (#[trigger] self.entries@[i]).0@ != (
            #[trigger] self.entries@[j]).0@
    }

    /// The titles stored under a category name, if any.
    pub open spec fn lookup(self, name: Seq<char>) -> Option<Seq<Seq<char>>> {
        entries_lookup(self.entries.deep_view(), name)
    }

    proof fn lemma_deep_view(self)
        ensures
            self.entries.deep_view().len() == self.entries@.len(),
            forall|i: int|
                0 <= i < self.entries@.len() ==> #[trigger] self.entries.deep_view()[i] == (
                self.entries@[i].0@, self.entries@[i].1.deep_view()),
    {
    }

    /// An empty catalogue.
    pub fn new() -> (c: Catalogue)
        ensures
            c.wf(),
            forall|n: Seq<char>| #[trigger] c.lookup(n) is None,
            c.entries@.len() == 0,
    {
        let c = Catalogue { entries: Vec::new() };
        proof {
            assert(c.entries.deep_view() =~= Seq::<(Seq<char>, Seq<Seq<char>>)>::empty());
        }
        c
    }

    /// How many categories the catalogue holds.
    pub fn category_count(&self) -> (n: usize)
        ensures
            n == self.entries@.len(),
    {
        self.entries.len()
    }

    /// Stores the titles under the category name, replacing any earlier
    /// list for the same name: last write wins.
    #[verifier::loop_isolation(false)]
    pub fn insert(&mut self, name: String, titles: Vec<String>)
        requires
            old(self).wf(),
        ensures
            final(self).wf(),
            forall|n: Seq<char>|
                #[trigger] final(self).lookup(n) == if n == name@ {
                    Some(titles.deep_view())
                } else {
                    old(self).lookup(n)
                },
    {
        let ghost pre = self.entries.deep_view();
        let ghost tv = titles.deep_view();
        proof {
            old(self).lemma_deep_view();
        }
        let mut i: usize = 0;
        while i < self.entries.len()
            invariant
                0 <= i <= self.entries@.len(),
                *self == *old(self),
                forall|j: int| 0 <= j < i ==> (#[trigger] self.entries@[j]).0@ != name@,
            decreases self.entries@.len() - i,
        {
            if str_eq(self.entries[i].0.as_str(), name.as_str()) {
                let ghost idx = i as int;
                self.entries.set(i, (name, titles));
                proof {
                    self.lemma_deep_view();
                    assert(self.entries.deep_view() =~= pre.update(idx, (pre[idx].0, tv)));
                    assert(forall|j: int|
                        0 <= j < idx ==> (#[trigger] pre[j]).0 == old(self).entries@[j].0@);
                    assert forall|n: Seq<char>| #[trigger] self.lookup(n) == (if n
                        == pre[idx].0 {
                        Some(tv)
                    } else {
                        old(self).lookup(n)
                    }) by {
                        lemma_lookup_update(pre, idx, (pre[idx].0, tv), n);
                    }
                    assert(forall|i2: int, j2: int|
                        0 <= i2 < j2 < self.entries@.len() ==> (
                        #[trigger] self.entries@[i2]).0@ != (
                        #[trigger] self.entries@[j2]).0@);
                }
                return ;
            }
            i = i + 1;
        }
        proof {
            assert(forall|j: int|
                0 <= j < pre.len() ==> (#[trigger] pre[j]).0 != name@);
            lemma_lookup_none(pre, name@);
        }
        let ghost nv = name@;
        self.entries.push((name, titles));
        proof {
            self.lemma_deep_view();
            assert(self.entries.deep_view() =~= pre.push((nv, tv)));
            assert forall|n: Seq<char>| #[trigger] self.lookup(n) == (if n == nv {
                Some(tv)
            } else {
                old(self).lookup(n)
            }) by {
                lemma_lookup_push(pre, (nv, tv), n);
                if n != nv {
                } else {
                    lemma_lookup_none(pre, n);
                }
            }
        }
    }

    /// Returns the stored titles of the category, if present.
    #[verifier::loop_isolation(false)]
    pub fn get(&self, name: &str) -> (r: Option<&Vec<String>>)
        ensures
            match r {
                Some(v) => self.lookup(name@) == Some(v.deep_view()),
                None => self.lookup(name@) is None,
            },
    {
        let ghost dv = self.entries.deep_view();
        proof {
            self.lemma_deep_view();
            assert(dv.subrange(0, dv.len() as int) =~= dv);
        }
        let mut i: usize = 0;
        while i < self.entries.len()
            invariant
                0 <= i <= self.entries@.len(),
                dv == self.entries.deep_view(),
                dv.len() == self.entries@.len(),
                forall|t: int|
                    0 <= t < dv.len() ==> #[trigger] dv[t] == (self.entries@[t].0@,
                    self.entries@[t].1.deep_view()),
                entries_lookup(dv, name@) == entries_lookup(
                    dv.subrange(i as int, dv.len() as int),
                    name@,
                ),
            decreases self.entries@.len() - i,
        {
            let ghost rest = dv.subrange(i as int, dv.len() as int);
            proof {
                assert(rest[0] == dv[i as int]);
                assert(rest.subrange(1, rest.len() as int) =~= dv.subrange(
                    i + 1,
                    dv.len() as int,
                ));
            }
            if str_eq(self.entries[i].0.as_str(), name) {
                return Some(&self.entries[i].1);
            }
            i = i + 1;
        }
        proof {
            assert(dv.subrange(dv.len() as int, dv.len() as int) =~= Seq::<(
                Seq<char>,
                Seq<Seq<char>>,
            )>::empty());
        }
        None
    }
}

/// One category's fetch outcome: its titles in response order, or nothing
/// when the fetch failed.
pub struct CategoryFetchResult {
    pub name: String,
    pub titles: Option<Vec<String>>,
}

/// The mathematical view of a run of fetch results.
pub open spec fn results_view(s: Seq<CategoryFetchResult>) -> Seq<
    (Seq<char>, Option<Seq<Seq<char>>>),
> {
    Seq::new(
        s.len(),
        |i: int|
            (s[i].name@, match s[i].titles {
                Some(v) => Some(v.deep_view()),
                None => None,
            }),
    )
}

/// What the merged catalogue holds under a name: the titles of the last
/// successful fetch for that name, failures contributing nothing.
pub open spec fn merged_lookup(
    rs: Seq<(Seq<char>, Option<Seq<Seq<char>>>)>,
    name: Seq<char>,
) -> Option<Seq<Seq<char>>>
    decreases rs.len(),
{
    if rs.len() == 0 {
        None
    } else {
        let last = rs.last();
        if last.0 == name && last.1 is Some {
            Some(last.1->0)
        } else {
            merged_lookup(rs.drop_last(), name)
        }
    }
}

/// The sync merge law: a failed category fetch contributes nothing to the
/// merged catalogue — removing it changes no category's merged titles, so
/// every other category's presence and contents are unaffected by the
/// failure.
pub proof fn lemma_merge_ignores_failures(
    rs: Seq<(Seq<char>, Option<Seq<Seq<char>>>)>,
    i: int,
    name: Seq<char>,
)
    requires
        0 <= i < rs.len(),
        rs[i].1 is None,
    ensures
        merged_lookup(rs.remove(i), name) == merged_lookup(rs, name),
    decreases rs.len(),
{
    if i == rs.len() - 1 {
        assert(rs.remove(i) =~= rs.drop_last());
        assert(rs.last().1 is None);
    } else {
        let removed = rs.remove(i);
        assert(removed.last() == rs.last());
        assert(removed.drop_last() =~= rs.drop_last().remove(i));
        lemma_merge_ignores_failures(rs.drop_last(), i, name);
    }
}

/// Copies a title list.
fn clone_string_vec(v: &Vec<String>) -> (r: Vec<String>)
    ensures
        r@ == v@,
{
    let mut out: Vec<String> = Vec::new();
    let mut i: usize = 0;
    while i < v.len()
        invariant
            0 <= i <= v@.len(),
            out@.len() == i,
            forall|j: int| 0 <= j < i ==> out@[j] == v@[j],
        decreases v@.len() - i,
    {
        out.push(v[i].clone());
        i = i + 1;
    }
    proof {
        assert(out@ =~= v@);
    }
    out
}

/// Merges per-category fetch results into a catalogue: each successful
/// fetch stores its titles under its category name, later results
/// overwriting earlier ones of the same name; failed fetches are skipped.
#[verifier::loop_isolation(false)]
pub fn merge_category_results(results: &Vec<CategoryFetchResult>) -> (c: Catalogue)
    ensures
        c.wf(),
        forall|n: Seq<char>|
            #[trigger] c.lookup(n) == merged_lookup(results_view(results@), n),
{
    let ghost rv = results_view(results@);
    let mut c = Catalogue::new();
    let mut i: usize = 0;
    while i < results.len()
        invariant
            0 <= i <= results@.len(),
            c.wf(),
            forall|n: Seq<char>|
                #[trigger] c.lookup(n) == merged_lookup(rv.subrange(0, i as int), n),
        decreases results@.len() - i,
    {
        let ghost prefix = rv.subrange(0, i + 1);
        proof {
            assert(prefix.last() == rv[i as int]);
            assert(prefix.drop_last() =~= rv.subrange(0, i as int));
        }
        match &results[i].titles {
            Some(ts) => {
                let titles = clone_string_vec(ts);
                proof {
                    assert(titles.deep_view() =~= ts.deep_view());
                    assert(rv[i as int].0 == results@[i as int].name@);
                    assert(rv[i as int].1 == Some(ts.deep_view()));
                }
                c.insert(results[i].name.clone(), titles);
            },
            None => {
                proof {
                    assert(rv[i as int].1 is None);
                }
            },
        }
        i = i + 1;
    }
    proof {
        assert(rv.subrange(0, rv.len() as int) =~= rv);
    }
    c
}

/// The names of the categories whose fetch failed, in order.
pub open spec fn failed_of(rs: Seq<(Seq<char>, Option<Seq<Seq<char>>>)>) -> Seq<Seq<char>>
    decreases rs.len(),
{
    if rs.len() == 0 {
        Seq::empty()
    } else {
        (if rs[0].1 is None {
            seq![rs[0].0]
        } else {
            Seq::empty()
        }) + failed_of(rs.subrange(1, rs.len() as int))
    }
}

/// Lists the categories whose fetch failed, in order, for reporting.
#[verifier::loop_isolation(false)]
pub fn failed_categories(results: &Vec<CategoryFetchResult>) -> (r: Vec<String>)
    ensures
        r.deep_view() == failed_of(results_view(results@)),
{
    let ghost rv = results_view(results@);
    let mut out: Vec<String> = Vec::new();
    let mut i: usize = 0;
    proof {
        assert(rv.subrange(0, rv.len() as int) =~= rv);
        assert(out.deep_view() =~= Seq::<Seq<char>>::empty());
        assert(Seq::<Seq<char>>::empty() + failed_of(rv) =~= failed_of(rv));
    }
    while i < results.len()
        invariant
            0 <= i <= results@.len(),
            failed_of(rv) == out.deep_view() + failed_of(
                rv.subrange(i as int, rv.len() as int),
            ),
        decreases results@.len() - i,
    {
        let ghost rest = rv.subrange(i as int, rv.len() as int);
        proof {
            assert(rest[0] == rv[i as int]);
            assert(rest.subrange(1, rest.len() as int) =~= rv.subrange(
                i + 1,
                rv.len() as int,
            ));
        }
        let ghost pre = out.deep_view();
        match &results[i].titles {
            Some(_) => {
                proof {
                    assert(rv[i as int].1 is Some);
                    assert(pre + (Seq::<Seq<char>>::empty() + failed_of(
                        rv.subrange(i + 1, rv.len() as int),
                    )) =~= pre + failed_of(rv.subrange(i + 1, rv.len() as int)));
                }
            },
            None => {
                let name = results[i].name.clone();
                let ghost nv = name@;
                out.push(name);
                proof {
                    assert(rv[i as int].1 is None);
                    assert(rv[i as int].0 == nv);
                    assert(out.deep_view() =~= pre.push(nv));
                    assert(pre + (seq![nv] + failed_of(rv.subrange(i + 1, rv.len() as int)))
                        =~= pre.push(nv) + failed_of(rv.subrange(i + 1, rv.len() as int)));
                }
            },
        }
        i = i + 1;
    }
    proof {
        assert(failed_of(rv.subrange(rv.len() as int, rv.len() as int)) == Seq::<
            Seq<char>,
        >::empty());
        assert(out.deep_view() + Seq::<Seq<char>>::empty() =~= out.deep_view());
    }
    out
}

/// The trailing path segment of a category link: what follows the last
/// slash, or the whole link when it has none.
pub open spec fn category_name_spec(s: Seq<char>) -> Seq<char>
    decreases s.len(),
{
    if s.len() == 0 {
        s
    } else if s.last() == '/' {
        Seq::empty()
    } else {
        category_name_spec(s.drop_last()).push(s.last())
    }
}

proof fn lemma_category_name_cut(s: Seq<char>, start: int)
    requires
        0 <= start <= s.len(),
        forall|j: int| start <= j < s.len() ==> s[j] != '/',
        start > 0 ==> s[start - 1] == '/',
    ensures
        category_name_spec(s) == s.subrange(start, s.len() as int),
    decreases s.len(),
{
    if s.len() == 0 {
        assert(s.subrange(0, 0) =~= s);
    } else if s.last() == '/' {
        assert(start == s.len());
        assert(s.subrange(start, s.len() as int) =~= Seq::<char>::empty());
    } else {
        assert(start < s.len());
        let front = s.drop_last();
        assert(front =~= s.subrange(0, s.len() - 1));
        lemma_category_name_cut(front, start);
        assert(front.subrange(start, front.len() as int) =~= s.subrange(
            start,
            s.len() - 1,
        ));
        assert(s.subrange(start, s.len() - 1).push(s.last()) =~= s.subrange(
            start,
            s.len() as int,
        ));
    }
}

/// Derives a category's name from its link: the trailing path segment.
pub fn category_name_of_link(link: &str) -> (r: String)
    ensures
        r@ == category_name_spec(link@),
{
    let len = link.unicode_len();
    let mut start: usize = 0;
    let mut i: usize = 0;
    while i < len
        invariant
            0 <= start <= i <= len,
            len == link@.len(),
            forall|j: int| start <= j < i ==> link@[j] != '/',
            start > 0 ==> link@[start - 1] == '/',
        decreases len - i,
    {
        if link.get_char(i) == '/' {
            start = i + 1;
        }
        i = i + 1;
    }
    proof {
        lemma_category_name_cut(link@, start as int);
    }
    let tail = link.substring_char(start, len);
    tail.to_owned()
}

/// The `href` of every anchor in a preorder walk of the node.
pub open spec fn hrefs_in_node(n: HtmlNode) -> Seq<Seq<char>>
    decreases n, 0int,
{
    match n {
        HtmlNode::Text(_) => Seq::empty(),
        HtmlNode::Element { tag, attrs, children } => (if tag@ == "a"@ {
            seq![href_of(attrs@)]
        } else {
            Seq::empty()
        }) + hrefs_in_nodes(children@),
        HtmlNode::Other { children } => hrefs_in_nodes(children@),
    }
}

/// The `href` of every anchor in a preorder walk of the nodes.
pub open spec fn hrefs_in_nodes(nodes: Seq<HtmlNode>) -> Seq<Seq<char>>
    decreases nodes, 1int,
{
    if nodes.len() == 0 {
        Seq::empty()
    } else {
        hrefs_in_node(nodes[0]) + hrefs_in_nodes(nodes.subrange(1, nodes.len() as int))
    }
}

/// Every category link of the index page, in document order, with the
/// first dropped: it is the index's self-reference.
pub open spec fn category_links_spec(roots: Seq<HtmlNode>) -> Seq<Seq<char>> {
    let hs = hrefs_in_nodes(roots);
    if hs.len() == 0 {
        hs
    } else {
        hs.subrange(1, hs.len() as int)
    }
}

/// Appends the anchors' targets of one node.
fn collect_hrefs_node(n: &HtmlNode, out: &mut Vec<String>)
    ensures
        final(out).deep_view() == old(out).deep_view() + hrefs_in_node(*n),
    decreases *n, 0int,
{
    let ghost pre = out.deep_view();
    match n {
        HtmlNode::Text(_) => {
            proof {
                assert(pre + Seq::<Seq<char>>::empty() =~= pre);
            }
        },
        HtmlNode::Element { tag, attrs, children } => {
            if str_eq(tag.as_str(), "a") {
                let url = match crate::dom::attr_value(attrs, "href") {
                    Some(u) => u,
                    None => String::new(),
                };
                let ghost uv = url@;
                out.push(url);
                proof {
                    assert(out.deep_view() =~= pre.push(uv));
                    assert(uv == href_of(attrs@));
                    assert(pre.push(uv) =~= pre + seq![href_of(attrs@)]);
                }
            } else {
                proof {
                    assert(pre + Seq::<Seq<char>>::empty() =~= pre);
                }
            }
            let ghost mid = out.deep_view();
            collect_hrefs_nodes(children, out);
            proof {
                assert(mid + hrefs_in_nodes(children@) =~= pre + hrefs_in_node(*n));
            }
        },
        HtmlNode::Other { children } => {
            collect_hrefs_nodes(children, out);
        },
    }
}

/// Appends the anchors' targets of a run of nodes.
#[verifier::loop_isolation(false)]
fn collect_hrefs_nodes(nodes: &Vec<HtmlNode>, out: &mut Vec<String>)
    ensures
        final(out).deep_view() == old(out).deep_view() + hrefs_in_nodes(nodes@),
    decreases nodes@, 1int,
{
    let ghost base = out.deep_view();
    let mut i: usize = 0;
    proof {
        assert(nodes@.subrange(0, nodes@.len() as int) =~= nodes@);
    }
    while i < nodes.len()
        invariant
            0 <= i <= nodes@.len(),
            base + hrefs_in_nodes(nodes@) == out.deep_view() + hrefs_in_nodes(
                nodes@.subrange(i as int, nodes@.len() as int),
            ),
        decreases nodes@.len() - i,
    {
        let ghost rest = nodes@.subrange(i as int, nodes@.len() as int);
        proof {
            assert(rest[0] == nodes@[i as int]);
            assert(rest.subrange(1, rest.len() as int) =~= nodes@.subrange(
                i + 1,
                nodes@.len() as int,
            ));
        }
        let ghost pre = out.deep_view();
        collect_hrefs_node(&nodes[i], out);
        proof {
            assert(pre + (hrefs_in_node(nodes@[i as int]) + hrefs_in_nodes(
                nodes@.subrange(i + 1, nodes@.len() as int),
            )) =~= (pre + hrefs_in_node(nodes@[i as int])) + hrefs_in_nodes(
                nodes@.subrange(i + 1, nodes@.len() as int),
            ));
        }
        i = i + 1;
    }
    proof {
        assert(hrefs_in_nodes(nodes@.subrange(nodes@.len() as int, nodes@.len() as int))
            == Seq::<Seq<char>>::empty());
        assert(out.deep_view() + Seq::<Seq<char>>::empty() =~= out.deep_view());
    }
}

/// The label of every anchor in a preorder walk of the node: each link's
/// children linearised as plain text.
pub open spec fn labels_in_node(n: HtmlNode) -> Seq<Seq<char>>
    decreases n, 0int,
{
    match n {
        HtmlNode::Text(_) => Seq::empty(),
        HtmlNode::Element { tag, attrs, children } => (if tag@ == "a"@ {
            seq![
                crate::formats::convert_seq(
                    crate::formats::PageFormat::PlainText,
                    children@,
                    false,
                ),
            ]
        } else {
            Seq::empty()
        }) + labels_in_nodes(children@),
        HtmlNode::Other { children } => labels_in_nodes(children@),
    }
}

/// The label of every anchor in a preorder walk of the nodes.
pub open spec fn labels_in_nodes(nodes: Seq<HtmlNode>) -> Seq<Seq<char>>
    decreases nodes, 1int,
{
    if nodes.len() == 0 {
        Seq::empty()
    } else {
        labels_in_node(nodes[0]) + labels_in_nodes(nodes.subrange(1, nodes.len() as int))
    }
}

/// Appends the anchors' labels of one node.
fn collect_labels_node(n: &HtmlNode, out: &mut Vec<String>)
    ensures
        final(out).deep_view() == old(out).deep_view() + labels_in_node(*n),
    decreases *n, 0int,
{
    let ghost pre = out.deep_view();
    match n {
        HtmlNode::Text(_) => {
            proof {
                assert(pre + Seq::<Seq<char>>::empty() =~= pre);
            }
        },
        HtmlNode::Element { tag, attrs, children } => {
            if str_eq(tag.as_str(), "a") {
                let label = crate::formats::exec_convert_nodes(
                    crate::formats::PageFormat::PlainText,
                    children,
                    false,
                );
                let ghost lv = label@;
                out.push(label);
                proof {
                    assert(out.deep_view() =~= pre.push(lv));
                    assert(pre.push(lv) =~= pre + seq![
                        crate::formats::convert_seq(
                            crate::formats::PageFormat::PlainText,
                            children@,
                            false,
                        ),
                    ]);
                }
            } else {
                proof {
                    assert(pre + Seq::<Seq<char>>::empty() =~= pre);
                }
            }
            let ghost mid = out.deep_view();
            collect_labels_nodes(children, out);
            proof {
                assert(mid + labels_in_nodes(children@) =~= pre + labels_in_node(*n));
            }
        },
        HtmlNode::Other { children } => {
            collect_labels_nodes(children, out);
        },
    }
}

/// Appends the anchors' labels of a run of nodes.
#[verifier::loop_isolation(false)]
fn collect_labels_nodes(nodes: &Vec<HtmlNode>, out: &mut Vec<String>)
    ensures
        final(out).deep_view() == old(out).deep_view() + labels_in_nodes(nodes@),
    decreases nodes@, 1int,
{
    let ghost base = out.deep_view();
    let mut i: usize = 0;
    proof {
        assert(nodes@.subrange(0, nodes@.len() as int) =~= nodes@);
    }
    while i < nodes.len()
        invariant
            0 <= i <= nodes@.len(),
            base + labels_in_nodes(nodes@) == out.deep_view() + labels_in_nodes(
                nodes@.subrange(i as int, nodes@.len() as int),
            ),
        decreases nodes@.len() - i,
    {
        let ghost rest = nodes@.subrange(i as int, nodes@.len() as int);
        proof {
            assert(rest[0] == nodes@[i as int]);
            assert(rest.subrange(1, rest.len() as int) =~= nodes@.subrange(
                i + 1,
                nodes@.len() as int,
            ));
        }
        let ghost pre = out.deep_view();
        collect_labels_node(&nodes[i], out);
        proof {
            assert(pre + (labels_in_node(nodes@[i as int]) + labels_in_nodes(
                nodes@.subrange(i + 1, nodes@.len() as int),
            )) =~= (pre + labels_in_node(nodes@[i as int])) + labels_in_nodes(
                nodes@.subrange(i + 1, nodes@.len() as int),
            ));
        }
        i = i + 1;
    }
    proof {
        assert(labels_in_nodes(nodes@.subrange(nodes@.len() as int, nodes@.len() as int))
            == Seq::<Seq<char>>::empty());
        assert(out.deep_view() + Seq::<Seq<char>>::empty() =~= out.deep_view());
    }
}

/// Extracts the title of every page linked from a category listing: each
/// anchor's plain-text label, in document order.
pub fn extract_page_titles(document: &HtmlDocument) -> (r: Vec<String>)
    ensures
        r.deep_view() == labels_in_nodes(document.roots@),
{
    let mut out: Vec<String> = Vec::new();
    proof {
        assert(out.deep_view() =~= Seq::<Seq<char>>::empty());
        assert(Seq::<Seq<char>>::empty() + labels_in_nodes(document.roots@)
            =~= labels_in_nodes(document.roots@));
    }
    collect_labels_nodes(&document.roots, &mut out);
    out
}

/// Extracts every category link of the fetched index page, skipping the
/// first: it is the index's self-reference.
pub fn extract_category_links(document: &HtmlDocument) -> (r: Vec<String>)
    ensures
        r.deep_view() == category_links_spec(document.roots@),
{
    let mut all: Vec<String> = Vec::new();
    proof {
        assert(all.deep_view() =~= Seq::<Seq<char>>::empty());
        assert(Seq::<Seq<char>>::empty() + hrefs_in_nodes(document.roots@) =~= hrefs_in_nodes(
            document.roots@,
        ));
    }
    collect_hrefs_nodes(&document.roots, &mut all);
    let ghost hs = hrefs_in_nodes(document.roots@);
    if all.len() > 0 {
        all.remove(0);
        proof {
            assert(all.deep_view() =~= hs.subrange(1, hs.len() as int));
        }
    }
    all
}

} // verus!
