//! A parsed HTML document held as an arena of nodes, and what the index
//! reads from it: the visible text, the outbound links, the title and the
//! description.

use vstd::prelude::*;
use crate::bytes::str_eq;
use crate::text::{trim, trimmed, views};
use html5ever::parse_document;
use html5ever::tendril::TendrilSink;
use markup5ever_rcdom::{Handle, NodeData, RcDom};

verus! {

pub enum HtmlNodeKind {
    Document,
    Element { name: String, attrs: Vec<(String, String)> },
    Text { contents: String },
    /// A doctype, comment or processing instruction.
    Other,
}

pub struct HtmlNode {
    pub kind: HtmlNodeKind,
    /// Indices of the children, in document order.
    pub children: Vec<usize>,
}

/// The nodes of a document, the document node first. Only children that
/// stand after their parent count as children, so every walk ends.
pub struct HtmlTree {
    pub nodes: Vec<HtmlNode>,
}

/// The tree html5ever builds from `html`.
pub uninterp spec fn html_tree_of(html: Seq<char>) -> Seq<HtmlNode>;

/// A node of markup5ever_rcdom's tree, carried through opaquely.
#[verifier::external_type_specification]
#[verifier::external_body]
pub struct ExRcdomNode(markup5ever_rcdom::Node);

/// Relies on markup5ever_rcdom's `Node` (its `data` and `children`): copies
/// the subtree at `handle` onto `nodes` in pre-order, each child after its
/// parent, and returns the index of its root.
#[verifier::external_body]
fn append_rcdom_node(handle: &Handle, nodes: &mut Vec<HtmlNode>) -> usize {
    let kind = match &handle.data {
        NodeData::Document => HtmlNodeKind::Document,
        NodeData::Element { name, attrs, .. } => HtmlNodeKind::Element {
            name: name.local.to_string(),
            attrs: attrs.borrow().iter().map(|a| (a.name.local.to_string(), a.value.to_string())).collect(),
        },
        NodeData::Text { contents } => HtmlNodeKind::Text { contents: contents.borrow().to_string() },
        _ => HtmlNodeKind::Other,
    };
    nodes.push(HtmlNode { kind, children: Vec::new() });
    let index = nodes.len() - 1;
    let children = handle.children.borrow().iter().map(|c| append_rcdom_node(c, nodes)).collect();
    nodes[index].children = children;
    index
}

/// Relies on html5ever's `parse_document(..).one(html)` into a
/// markup5ever_rcdom tree, copied node by node in pre-order: the result is
/// a function of the markup alone. The parser's buffers hold at most
/// `u32::MAX` bytes.
#[verifier::external_body]
fn build_document_tree(html: &str) -> (t: HtmlTree)
    requires
        html.len() <= u32::MAX as usize,
    ensures
        t.nodes@ == html_tree_of(html@),
{
    let dom: RcDom = parse_document(RcDom::default(), Default::default()).one(html);
    let mut nodes: Vec<HtmlNode> = Vec::new();
    append_rcdom_node(&dom.document, &mut nodes);
    HtmlTree { nodes }
}

/// The document tree of `html`, which holds at most `u32::MAX` bytes.
pub fn parse_html(html: &str) -> (t: HtmlTree)
    requires
        html.len() <= u32::MAX as usize,
    ensures
        t.nodes@ == html_tree_of(html@),
{
    build_document_tree(html)
}

pub open spec fn is_child(t: Seq<HtmlNode>, i: int, c: int) -> bool {
    i < c < t.len()
}

/// Elements whose text is not visible.
pub open spec fn is_hidden_element(name: Seq<char>) -> bool {
    name == "script"@ || name == "style"@
}

/// Elements after whose text a line break is added.
pub open spec fn is_line_break_element(name: Seq<char>) -> bool {
    name == "br"@ || name == "p"@ || name == "div"@ || name == "li"@
}

/// The visible text of the subtree at `i`, in document order.
pub open spec fn subtree_text(t: Seq<HtmlNode>, i: int) -> Seq<char>
    decreases t.len() - i, 1int,
{
    if 0 <= i < t.len() {
        match t[i].kind {
            HtmlNodeKind::Document => children_text(t, i, t[i].children@.len() as int),
            HtmlNodeKind::Element { name, .. } => {
                if is_hidden_element(name@) {
                    Seq::empty()
                } else if is_line_break_element(name@) {
                    children_text(t, i, t[i].children@.len() as int).push('\n')
                } else {
                    children_text(t, i, t[i].children@.len() as int)
                }
            },
            HtmlNodeKind::Text { contents } => contents@,
            HtmlNodeKind::Other => Seq::empty(),
        }
    } else {
        Seq::empty()
    }
}

/// The visible text of the first `k` children of node `i`.
pub open spec fn children_text(t: Seq<HtmlNode>, i: int, k: int) -> Seq<char>
    decreases t.len() - i, 0int, k,
{
    if 0 <= i < t.len() && 0 < k <= t[i].children@.len() {
        let c = t[i].children@[k - 1] as int;
        children_text(t, i, k - 1) + if is_child(t, i, c) {
            subtree_text(t, c)
        } else {
            Seq::empty()
        }
    } else {
        Seq::empty()
    }
}

fn append_subtree_text(t: &HtmlTree, i: usize, out: &mut String)
    requires
        i < t.nodes@.len(),
    ensures
        final(out)@ == old(out)@ + subtree_text(t.nodes@, i as int),
    decreases t.nodes@.len() - i, 1int,
{
    let node = &t.nodes[i];
    match &node.kind {
        HtmlNodeKind::Text { contents } => {
            out.append(contents.as_str());
        },
        HtmlNodeKind::Other => {
            assert(out@ =~= out@ + Seq::<char>::empty());
        },
        HtmlNodeKind::Element { name, .. } => {
            if str_eq(name.as_str(), "script") || str_eq(name.as_str(), "style") {
                assert(out@ =~= out@ + Seq::<char>::empty());
            } else {
                let ghost start = out@;
                append_children_text(t, i, out);
                if str_eq(name.as_str(), "br") || str_eq(name.as_str(), "p") || str_eq(name.as_str(), "div")
                    || str_eq(name.as_str(), "li") {
                    out.append("\n");
                    proof {
                        reveal_strlit("\n");
                    }
                    assert(out@ =~= start + children_text(t.nodes@, i as int, node.children@.len() as int).push('\n'));
                }
            }
        },
        HtmlNodeKind::Document => {
            append_children_text(t, i, out);
        },
    }
}

fn append_children_text(t: &HtmlTree, i: usize, out: &mut String)
    requires
        i < t.nodes@.len(),
    ensures
        final(out)@ == old(out)@ + children_text(t.nodes@, i as int, t.nodes@[i as int].children@.len() as int),
    decreases t.nodes@.len() - i, 0int, t.nodes@[i as int].children@.len(),
{
    let children = &t.nodes[i].children;
    let ghost start = out@;
    let mut k: usize = 0;
    assert(start =~= start + children_text(t.nodes@, i as int, 0));
    while k < children.len()
        invariant
            i < t.nodes@.len(),
            children == t.nodes@[i as int].children,
            k <= children@.len(),
            out@ == start + children_text(t.nodes@, i as int, k as int),
        decreases children@.len() - k,
    {
        let c = children[k];
        if i < c && c < t.nodes.len() {
            append_subtree_text(t, c, out);
        }
        k = k + 1;
        assert(out@ =~= start + children_text(t.nodes@, i as int, k as int));
    }
}

/// The visible text of the document: text nodes in document order, without
/// `script` and `style` subtrees, a line break after each `br`, `p`, `div`
/// and `li` element, trimmed.
pub open spec fn document_text(t: Seq<HtmlNode>) -> Seq<char> {
    trimmed(subtree_text(t, 0))
}

pub fn extract_text_from_html(tree: &HtmlTree) -> (r: String)
    ensures
        r@ == document_text(tree.nodes@),
{
    let mut out = String::new();
    if tree.nodes.len() > 0 {
        append_subtree_text(tree, 0, &mut out);
        assert(out@ =~= subtree_text(tree.nodes@, 0));
    } else {
        assert(out@ =~= subtree_text(tree.nodes@, 0));
    }
    trim(out.as_str())
}

/// The address of the URL parser's join of `href` onto `base`, when both
/// parse.
pub uninterp spec fn joined_url(base: Seq<char>, href: Seq<char>) -> Option<Seq<char>>;

/// Relies on url's `Url::parse(base)` and `Url::join(href)`, then the
/// joined URL's serialisation.
#[verifier::external_body]
fn join_url(base: &str, href: &str) -> (r: Option<String>)
    ensures
        match r {
            Some(u) => joined_url(base@, href@) == Some(u@),
            None => joined_url(base@, href@) is None,
        },
{
    url::Url::parse(base).and_then(|b| b.join(href)).ok().map(|u| u.to_string())
}

/// A link as stored: `href` resolved against `base`, or `href` itself when
/// that fails.
pub open spec fn resolved_link(base: Seq<char>, href: Seq<char>) -> Seq<char> {
    match joined_url(base, href) {
        Some(u) => u,
        None => href,
    }
}

/// The resolved `href` values among the first `k` attributes.
pub open spec fn href_links(base: Seq<char>, attrs: Seq<(String, String)>, k: int) -> Seq<Seq<char>>
    decreases k,
{
    if 0 < k <= attrs.len() {
        href_links(base, attrs, k - 1) + if attrs[k - 1].0@ == "href"@ {
            seq![resolved_link(base, attrs[k - 1].1@)]
        } else {
            Seq::empty()
        }
    } else {
        Seq::empty()
    }
}

/// The links of the subtree at `i`: each `a` element's `href`s, in
/// document order.
pub open spec fn subtree_links(t: Seq<HtmlNode>, i: int, base: Seq<char>) -> Seq<Seq<char>>
    decreases t.len() - i, 1int,
{
    if 0 <= i < t.len() {
        match t[i].kind {
            HtmlNodeKind::Document => children_links(t, i, base, t[i].children@.len() as int),
            HtmlNodeKind::Element { name, attrs } => (if name@ == "a"@ {
                href_links(base, attrs@, attrs@.len() as int)
            } else {
                Seq::empty()
            }) + children_links(t, i, base, t[i].children@.len() as int),
            _ => Seq::empty(),
        }
    } else {
        Seq::empty()
    }
}

pub open spec fn children_links(t: Seq<HtmlNode>, i: int, base: Seq<char>, k: int) -> Seq<Seq<char>>
    decreases t.len() - i, 0int, k,
{
    if 0 <= i < t.len() && 0 < k <= t[i].children@.len() {
        let c = t[i].children@[k - 1] as int;
        children_links(t, i, base, k - 1) + if is_child(t, i, c) {
            subtree_links(t, c, base)
        } else {
            Seq::empty()
        }
    } else {
        Seq::empty()
    }
}

fn append_href_links(base: &str, attrs: &Vec<(String, String)>, out: &mut Vec<String>)
    ensures
        views(final(out)@) == views(old(out)@) + href_links(base@, attrs@, attrs@.len() as int),
{
    let ghost start = views(out@);
    let mut k: usize = 0;
    assert(views(out@) =~= start + href_links(base@, attrs@, 0));
    while k < attrs.len()
        invariant
            k <= attrs@.len(),
            views(out@) == start + href_links(base@, attrs@, k as int),
        decreases attrs@.len() - k,
    {
        let ghost before = out@;
        if str_eq(attrs[k].0.as_str(), "href") {
            let href = &attrs[k].1;
            let link = match join_url(base, href.as_str()) {
                Some(u) => u,
                None => href.clone(),
            };
            assert(link@ == resolved_link(base@, attrs@[k as int].1@));
            out.push(link);
            assert(views(out@) =~= views(before).push(resolved_link(base@, attrs@[k as int].1@)));
        }
        k = k + 1;
        assert(views(out@) =~= start + href_links(base@, attrs@, k as int));
    }
}

fn append_subtree_links(t: &HtmlTree, i: usize, base: &str, out: &mut Vec<String>)
    requires
        i < t.nodes@.len(),
    ensures
        views(final(out)@) == views(old(out)@) + subtree_links(t.nodes@, i as int, base@),
    decreases t.nodes@.len() - i, 1int,
{
    let node = &t.nodes[i];
    match &node.kind {
        HtmlNodeKind::Document => {
            append_children_links(t, i, base, out);
        },
        HtmlNodeKind::Element { name, attrs } => {
            let ghost start = views(out@);
            if str_eq(name.as_str(), "a") {
                append_href_links(base, attrs, out);
            }
            append_children_links(t, i, base, out);
            assert(views(out@) =~= start + subtree_links(t.nodes@, i as int, base@));
        },
        _ => {
            assert(views(out@) =~= views(out@) + Seq::<Seq<char>>::empty());
        },
    }
}

fn append_children_links(t: &HtmlTree, i: usize, base: &str, out: &mut Vec<String>)
    requires
        i < t.nodes@.len(),
    ensures
        views(final(out)@) == views(old(out)@) + children_links(
            t.nodes@,
            i as int,
            base@,
            t.nodes@[i as int].children@.len() as int,
        ),
    decreases t.nodes@.len() - i, 0int, t.nodes@[i as int].children@.len(),
{
    let children = &t.nodes[i].children;
    let ghost start = views(out@);
    let mut k: usize = 0;
    assert(start =~= start + children_links(t.nodes@, i as int, base@, 0));
    while k < children.len()
        invariant
            i < t.nodes@.len(),
            children == t.nodes@[i as int].children,
            k <= children@.len(),
            views(out@) == start + children_links(t.nodes@, i as int, base@, k as int),
        decreases children@.len() - k,
    {
        let c = children[k];
        if i < c && c < t.nodes.len() {
            append_subtree_links(t, c, base, out);
        }
        k = k + 1;
        assert(views(out@) =~= start + children_links(t.nodes@, i as int, base@, k as int));
    }
}

/// The outbound links of the document, each resolved against `base_url`
/// where the URL parser can, duplicates kept, in document order.
pub fn extract_links_from_html(tree: &HtmlTree, base_url: &str) -> (r: Vec<String>)
    ensures
        views(r@) == subtree_links(tree.nodes@, 0, base_url@),
{
    let mut out: Vec<String> = Vec::new();
    if tree.nodes.len() > 0 {
        append_subtree_links(tree, 0, base_url, &mut out);
    }
    assert(views(out@) =~= subtree_links(tree.nodes@, 0, base_url@));
    out
}

/// The contents of the first text node among the first `k` children of `i`.
pub open spec fn first_text_child(t: Seq<HtmlNode>, i: int, k: int) -> Option<Seq<char>>
    decreases k,
{
    if 0 <= i < t.len() && 0 < k <= t[i].children@.len() {
        match first_text_child(t, i, k - 1) {
            Some(x) => Some(x),
            None => {
                let c = t[i].children@[k - 1] as int;
                if is_child(t, i, c) {
                    match t[c].kind {
                        HtmlNodeKind::Text { contents } => Some(contents@),
                        _ => None,
                    }
                } else {
                    None
                }
            },
        }
    } else {
        None
    }
}

pub open spec fn is_element_named(n: HtmlNode, name: Seq<char>) -> bool {
    match n.kind {
        HtmlNodeKind::Element { name: m, .. } => m@ == name,
        _ => false,
    }
}

/// The first element named `name` in pre-order from `i`.
pub open spec fn find_element(t: Seq<HtmlNode>, i: int, name: Seq<char>) -> Option<int>
    decreases t.len() - i, 1int,
{
    if 0 <= i < t.len() {
        if is_element_named(t[i], name) {
            Some(i)
        } else {
            children_find(t, i, name, t[i].children@.len() as int)
        }
    } else {
        None
    }
}

/// The first element named `name` under the first `k` children of `i`.
pub open spec fn children_find(t: Seq<HtmlNode>, i: int, name: Seq<char>, k: int) -> Option<int>
    decreases t.len() - i, 0int, k,
{
    if 0 <= i < t.len() && 0 < k <= t[i].children@.len() {
        match children_find(t, i, name, k - 1) {
            Some(x) => Some(x),
            None => {
                let c = t[i].children@[k - 1] as int;
                if is_child(t, i, c) {
                    find_element(t, c, name)
                } else {
                    None
                }
            },
        }
    } else {
        None
    }
}

/// The first text child of the first element named `name` in pre-order
/// from `i`; `None` when there is no such element or it has no text child.
pub open spec fn named_element_text(t: Seq<HtmlNode>, i: int, name: Seq<char>) -> Option<Seq<char>> {
    match find_element(t, i, name) {
        Some(e) => first_text_child(t, e, t[e].children@.len() as int),
        None => None,
    }
}

/// The title found from `i`: the first text child of the first `title`
/// element in pre-order.
pub open spec fn subtree_title(t: Seq<HtmlNode>, i: int) -> Option<Seq<char>> {
    named_element_text(t, i, "title"@)
}

/// The description found from `i`: the first text child of the first
/// `description` element in pre-order.
pub open spec fn subtree_description(t: Seq<HtmlNode>, i: int) -> Option<Seq<char>> {
    named_element_text(t, i, "description"@)
}

pub open spec fn opt_view(o: Option<String>) -> Option<Seq<char>> {
    match o {
        Some(s) => Some(s@),
        None => None,
    }
}

fn find_text_child(t: &HtmlTree, i: usize) -> (r: Option<String>)
    requires
        i < t.nodes@.len(),
    ensures
        opt_view(r) == first_text_child(t.nodes@, i as int, t.nodes@[i as int].children@.len() as int),
{
    let children = &t.nodes[i].children;
    let mut k: usize = 0;
    while k < children.len()
        invariant
            i < t.nodes@.len(),
            children == t.nodes@[i as int].children,
            k <= children@.len(),
            first_text_child(t.nodes@, i as int, k as int) is None,
        decreases children@.len() - k,
    {
        let c = children[k];
        if i < c && c < t.nodes.len() {
            if let HtmlNodeKind::Text { contents } = &t.nodes[c].kind {
                assert(first_text_child(t.nodes@, i as int, k + 1) == Some(contents@));
                proof {
                    lemma_first_text_child_stays(t.nodes@, i as int, k + 1, children@.len() as int);
                }
                return Some(contents.clone());
            }
        }
        k = k + 1;
    }
    None
}

proof fn lemma_first_text_child_stays(t: Seq<HtmlNode>, i: int, k: int, n: int)
    requires
        0 <= i < t.len(),
        0 < k <= n <= t[i].children@.len(),
        first_text_child(t, i, k) is Some,
    ensures
        first_text_child(t, i, n) == first_text_child(t, i, k),
    decreases n - k,
{
    if n > k {
        lemma_first_text_child_stays(t, i, k, n - 1);
    }
}

proof fn lemma_children_find_stays(t: Seq<HtmlNode>, i: int, name: Seq<char>, k: int, n: int)
    requires
        0 <= i < t.len(),
        0 < k <= n <= t[i].children@.len(),
        children_find(t, i, name, k) is Some,
    ensures
        children_find(t, i, name, n) == children_find(t, i, name, k),
    decreases n - k,
{
    if n > k {
        lemma_children_find_stays(t, i, name, k, n - 1);
    }
}

fn find_element_from(t: &HtmlTree, i: usize, name: &str) -> (r: Option<usize>)
    ensures
        match r {
            Some(e) => find_element(t.nodes@, i as int, name@) == Some(e as int) && e < t.nodes@.len(),
            None => find_element(t.nodes@, i as int, name@) is None,
        },
    decreases t.nodes@.len() - i, 1int,
{
    if i >= t.nodes.len() {
        return None;
    }
    if let HtmlNodeKind::Element { name: m, .. } = &t.nodes[i].kind {
        if str_eq(m.as_str(), name) {
            return Some(i);
        }
    }
    let children = &t.nodes[i].children;
    let mut k: usize = 0;
    while k < children.len()
        invariant
            i < t.nodes@.len(),
            !is_element_named(t.nodes@[i as int], name@),
            children == t.nodes@[i as int].children,
            k <= children@.len(),
            children_find(t.nodes@, i as int, name@, k as int) is None,
        decreases children@.len() - k,
    {
        let c = children[k];
        if i < c && c < t.nodes.len() {
            let found = find_element_from(t, c, name);
            if let Some(e) = found {
                proof {
                    lemma_children_find_stays(t.nodes@, i as int, name@, k + 1, children@.len() as int);
                }
                return Some(e);
            }
        }
        k = k + 1;
    }
    None
}

fn named_text(tree: &HtmlTree, node: usize, name: &str) -> (r: Option<String>)
    ensures
        opt_view(r) == named_element_text(tree.nodes@, node as int, name@),
{
    match find_element_from(tree, node, name) {
        Some(e) => find_text_child(tree, e),
        None => None,
    }
}

/// The title found from node `node`: the first text child of the first
/// `title` element in pre-order.
pub fn extract_title_from_html(tree: &HtmlTree, node: usize) -> (r: Option<String>)
    ensures
        opt_view(r) == subtree_title(tree.nodes@, node as int),
{
    named_text(tree, node, "title")
}

/// The description found from node `node`: the first text child of the
/// first `description` element in pre-order.
pub fn extract_description_from_html(tree: &HtmlTree, node: usize) -> (r: Option<String>)
    ensures
        opt_view(r) == subtree_description(tree.nodes@, node as int),
{
    named_text(tree, node, "description")
}

} // verus!
