//! A document of markup as a tree, rebuilt from the list of its edges.

use vstd::prelude::*;
use vstd::string::*;
use crate::xml::{edge_views, text_view, NodeKind, XmlEdge, XmlEdgeView};

verus! {

/// A node of a document with its children in their order.
#[derive(Debug)]
pub struct XmlNode {
    pub kind: NodeKind,
    pub tag: String,
    pub text: Option<String>,
    pub children: Vec<XmlNode>,
}

/// What an [`XmlNode`] is.
pub struct XmlNodeView {
    pub kind: NodeKind,
    pub tag: Seq<char>,
    pub text: Option<Seq<char>>,
    pub children: Seq<XmlNodeView>,
}

impl View for XmlNode {
    type V = XmlNodeView;

    open spec fn view(&self) -> XmlNodeView {
        node_view(*self)
    }
}

/// What a node is: its kind, tag and text, and what its children are.
pub open spec fn node_view(node: XmlNode) -> XmlNodeView
    decreases node,
{
    XmlNodeView {
        kind: node.kind,
        tag: node.tag@,
        text: text_view(node.text),
        children: node_views(node.children@, node.children@.len()),
    }
}

/// What the first `n` nodes of a list are.
pub open spec fn node_views(nodes: Seq<XmlNode>, n: nat) -> Seq<XmlNodeView>
    decreases nodes, n,
{
    if n == 0 || n > nodes.len() {
        Seq::empty()
    } else {
        node_views(nodes, (n - 1) as nat).push(node_view(nodes[n - 1]))
    }
}

/// The views of the first `n` nodes are `n`, one for each node.
pub proof fn lemma_node_views(nodes: Seq<XmlNode>, n: nat)
    requires
        n <= nodes.len(),
    ensures
        node_views(nodes, n).len() == n,
        forall|i: int| 0 <= i < n ==> #[trigger] node_views(nodes, n)[i] == nodes[i]@,
    decreases n,
{
    if n > 0 {
        lemma_node_views(nodes, (n - 1) as nat);
    }
}

impl XmlNode {
    /// What the view of a node holds, field by field.
    pub proof fn lemma_view(&self)
        ensures
            self@.kind == self.kind,
            self@.tag == self.tag@,
            self@.text == text_view(self.text),
            self@.children.len() == self.children@.len(),
            forall|i: int|
                0 <= i < self.children@.len() ==> #[trigger] self@.children[i]
                    == self.children@[i]@,
    {
        lemma_node_views(self.children@, self.children@.len());
    }
}

/// The node that an edge enters or leaves, with the given children.
pub open spec fn node_of(edge: XmlEdgeView, children: Seq<XmlNodeView>) -> XmlNodeView {
    XmlNodeView { kind: edge.kind, tag: edge.tag, text: edge.text, children }
}

/// The edge on which the node entered by `edge` is left.
pub open spec fn closing(edge: XmlEdgeView) -> XmlEdgeView {
    XmlEdgeView { open: false, ..edge }
}

impl XmlNodeView {
    /// The edge on which the node is entered.
    pub open spec fn opening(self) -> XmlEdgeView {
        XmlEdgeView { open: true, kind: self.kind, tag: self.tag, text: self.text }
    }

    /// The edges of a walk through the node: it is entered, its children
    /// are walked in turn, and it is left.
    pub open spec fn edges(self) -> Seq<XmlEdgeView>
        decreases self,
    {
        seq![self.opening()] + walk_from(self.children, 0) + seq![closing(self.opening())]
    }
}

/// The edges of a walk through the nodes of a list from the `k`-th on, one
/// node after the other.
pub open spec fn walk_from(nodes: Seq<XmlNodeView>, k: nat) -> Seq<XmlEdgeView>
    decreases nodes, nodes.len() - k,
{
    if k >= nodes.len() {
        Seq::empty()
    } else {
        nodes[k as int].edges() + walk_from(nodes, k + 1)
    }
}

/// The node whose walk starts at `pos`, and the place behind its walk:
/// the edge at `pos` enters it, its children follow, and the edge after
/// them leaves it.
pub open spec fn parse_node(edges: Seq<XmlEdgeView>, pos: int) -> Option<(XmlNodeView, int)>
    decreases edges.len() - pos, 0int,
{
    if 0 <= pos < edges.len() && edges[pos].open {
        let (children, end) = parse_children(edges, pos + 1);
        if 0 <= end < edges.len() && edges[end] == closing(edges[pos]) {
            Some((node_of(edges[pos], children), end + 1))
        } else {
            None
        }
    } else {
        None
    }
}

/// The nodes whose walks follow each other from `pos` on, as many as there
/// are, and the place behind the last of them.
pub open spec fn parse_children(edges: Seq<XmlEdgeView>, pos: int) -> (Seq<XmlNodeView>, int)
    decreases edges.len() - pos, 1int,
{
    match parse_node(edges, pos) {
        Some((child, end)) if pos < end <= edges.len() => {
            let (others, last) = parse_children(edges, end);
            (seq![child] + others, last)
        },
        _ => (Seq::empty(), pos),
    }
}

/// The tree of which the whole list is the walk, if there is one.
pub open spec fn tree_of(edges: Seq<XmlEdgeView>) -> Option<XmlNodeView> {
    match parse_node(edges, 0) {
        Some((node, end)) if end == edges.len() => Some(node),
        _ => None,
    }
}

/// A walk through a list of nodes from some node on is the same walk
/// through the list without what stands before that node.
pub proof fn lemma_walk_skip(nodes: Seq<XmlNodeView>, k: nat)
    requires
        k <= nodes.len(),
    ensures
        walk_from(nodes, k) == walk_from(nodes.skip(k as int), 0),
    decreases nodes.len() - k,
{
    let rest = nodes.skip(k as int);
    if k < nodes.len() {
        lemma_walk_skip(nodes, k + 1);
        lemma_walk_skip(rest, 1);
        assert(rest.skip(1) =~= nodes.skip(k as int + 1));
        assert(rest[0] == nodes[k as int]);
    }
}

/// A walk through a node and then through others is the walk through the
/// list that starts with the node.
pub proof fn lemma_walk_prepend(first: XmlNodeView, others: Seq<XmlNodeView>)
    ensures
        walk_from(seq![first] + others, 0) == first.edges() + walk_from(others, 0),
{
    let all = seq![first] + others;
    lemma_walk_skip(all, 1);
    assert(all.skip(1) =~= others);
    assert(all[0] == first);
}

/// What `parse_node` finds at `pos` is a node whose walk is the part of
/// the list between `pos` and the place that it names.
pub proof fn lemma_parse_node_sound(edges: Seq<XmlEdgeView>, pos: int)
    ensures
        parse_node(edges, pos) matches Some((node, end)) ==> 0 <= pos < end <= edges.len()
            && edges.subrange(pos, end) == node.edges(),
    decreases edges.len() - pos, 0int,
{
    if 0 <= pos < edges.len() && edges[pos].open {
        let (children, end) = parse_children(edges, pos + 1);
        lemma_parse_children_sound(edges, pos + 1);
        if 0 <= end < edges.len() && edges[end] == closing(edges[pos]) {
            let node = node_of(edges[pos], children);
            assert(node.opening() == edges[pos]);
            assert(edges.subrange(pos, end + 1) =~= seq![edges[pos]] + edges.subrange(
                pos + 1,
                end,
            ) + seq![edges[end]]);
        }
    }
}

/// What `parse_children` finds from `pos` on are nodes whose walks, one
/// after the other, are the part of the list between `pos` and the place
/// that it names.
pub proof fn lemma_parse_children_sound(edges: Seq<XmlEdgeView>, pos: int)
    requires
        0 <= pos <= edges.len(),
    ensures
        pos <= parse_children(edges, pos).1 <= edges.len(),
        edges.subrange(pos, parse_children(edges, pos).1) == walk_from(
            parse_children(edges, pos).0,
            0,
        ),
    decreases edges.len() - pos, 1int,
{
    lemma_parse_node_sound(edges, pos);
    match parse_node(edges, pos) {
        Some((child, end)) => {
            if pos < end <= edges.len() {
                let (others, last) = parse_children(edges, end);
                lemma_parse_children_sound(edges, end);
                lemma_walk_prepend(child, others);
                assert(edges.subrange(pos, last) =~= edges.subrange(pos, end) + edges.subrange(
                    end,
                    last,
                ));
            } else {
                assert(edges.subrange(pos, pos) =~= Seq::<XmlEdgeView>::empty());
            }
        },
        None => {
            assert(edges.subrange(pos, pos) =~= Seq::<XmlEdgeView>::empty());
        },
    }
}

/// Where the walk of a node stands in the list from `pos` on, `parse_node`
/// finds that node there.
pub proof fn lemma_parse_node_complete(edges: Seq<XmlEdgeView>, pos: int, node: XmlNodeView)
    requires
        0 <= pos,
        pos + node.edges().len() <= edges.len(),
        edges.subrange(pos, pos + node.edges().len()) == node.edges(),
    ensures
        parse_node(edges, pos) == Some((node, pos + node.edges().len())),
    decreases node, 0nat,
{
    let inner = walk_from(node.children, 0);
    let walk = node.edges();
    assert(walk.len() == inner.len() + 2);
    assert(edges[pos] == walk[0]);
    assert(edges[pos + 1 + inner.len()] == walk[1 + inner.len() as int]);
    assert(edges.subrange(pos + 1, pos + 1 + inner.len()) =~= inner) by {
        assert forall|i: int| 0 <= i < inner.len() implies edges[pos + 1 + i] == inner[i] by {
            assert(edges[pos + 1 + i] == walk[1 + i]);
        }
    }
    lemma_parse_children_complete(edges, pos + 1, node.children, 0);
    assert(node.children.skip(0) =~= node.children);
}

/// Where the walks of the nodes of a list from the `k`-th on stand in the
/// list of edges from `pos` on, and no node is entered right behind
/// them, `parse_children` finds those nodes there.
pub proof fn lemma_parse_children_complete(
    edges: Seq<XmlEdgeView>,
    pos: int,
    nodes: Seq<XmlNodeView>,
    k: nat,
)
    requires
        0 <= pos,
        k <= nodes.len(),
        pos + walk_from(nodes, k).len() <= edges.len(),
        edges.subrange(pos, pos + walk_from(nodes, k).len()) == walk_from(nodes, k),
        pos + walk_from(nodes, k).len() < edges.len() ==> !edges[pos + walk_from(
            nodes,
            k,
        ).len()].open,
    ensures
        parse_children(edges, pos) == (nodes.skip(k as int), pos + walk_from(nodes, k).len()),
    decreases nodes, nodes.len() - k,
{
    let walk = walk_from(nodes, k);
    if k >= nodes.len() {
        assert(nodes.skip(k as int) =~= Seq::<XmlNodeView>::empty());
    } else {
        let child = nodes[k as int];
        let first = child.edges();
        let rest = walk_from(nodes, k + 1);
        assert(walk == first + rest);
        assert(edges.subrange(pos, pos + first.len()) =~= first) by {
            assert forall|i: int| 0 <= i < first.len() implies edges[pos + i] == first[i] by {
                assert(edges[pos + i] == walk[i]);
            }
        }
        lemma_parse_node_complete(edges, pos, child);
        assert(edges.subrange(pos + first.len(), pos + first.len() + rest.len()) =~= rest) by {
            assert forall|i: int| 0 <= i < rest.len() implies edges[pos + first.len() + i]
                == rest[i] by {
                assert(edges[pos + first.len() + i] == walk[first.len() + i]);
            }
        }
        lemma_parse_children_complete(edges, pos + first.len(), nodes, k + 1);
        assert(seq![child] + nodes.skip(k as int + 1) =~= nodes.skip(k as int));
    }
}

/// The tree of a list of edges is the one tree of which the list is the
/// walk.
pub proof fn lemma_tree_of(edges: Seq<XmlEdgeView>)
    ensures
        match tree_of(edges) {
            Some(node) => node.edges() == edges,
            None => forall|node: XmlNodeView| node.edges() != edges,
        },
{
    lemma_parse_node_sound(edges, 0);
    match tree_of(edges) {
        Some(node) => {
            assert(edges.subrange(0, edges.len() as int) =~= edges);
        },
        None => {
            assert forall|node: XmlNodeView| node.edges() != edges by {
                if node.edges() == edges {
                    assert(edges.subrange(0, edges.len() as int) =~= edges);
                    lemma_parse_node_complete(edges, 0, node);
                }
            }
        },
    }
}

/// Whether two optional texts are the same.
fn same_text(a: &Option<String>, b: &Option<String>) -> (same: bool)
    ensures
        same == (text_view(*a) == text_view(*b)),
{
    match (a, b) {
        (Some(x), Some(y)) => *x == *y,
        (None, None) => true,
        _ => false,
    }
}

/// Whether `left` is the edge on which the node entered by `entered` is
/// left.
fn closes(entered: &XmlEdge, left: &XmlEdge) -> (yes: bool)
    ensures
        yes == (left@ == closing(entered@)),
{
    !left.open && left.kind == entered.kind && left.tag == entered.tag && same_text(
        &left.text,
        &entered.text,
    )
}

/// A copy of an optional text.
fn copy_text(text: &Option<String>) -> (copy: Option<String>)
    ensures
        text_view(copy) == text_view(*text),
{
    match text {
        Some(t) => Some(t.clone()),
        None => None,
    }
}

/// The nodes of a list, each as what it is.
pub open spec fn mapped_views(nodes: Seq<XmlNode>) -> Seq<XmlNodeView> {
    nodes.map_values(|n: XmlNode| n@)
}

/// The node whose walk starts at `pos`, and the place behind its walk.
pub fn parse_node_at(edges: &Vec<XmlEdge>, pos: usize) -> (found: Option<(XmlNode, usize)>)
    ensures
        match found {
            Some((node, end)) => parse_node(edge_views(edges@), pos as int) == Some(
                (node@, end as int),
            ),
            None => parse_node(edge_views(edges@), pos as int) is None,
        },
    decreases edges.len() - pos,
{
    let ghost all = edge_views(edges@);
    if pos >= edges.len() || !edges[pos].open {
        return None;
    }
    let mut children: Vec<XmlNode> = Vec::new();
    let mut next: usize = pos + 1;
    assert(mapped_views(children@) + parse_children(all, next as int).0 =~= parse_children(
        all,
        pos + 1,
    ).0);
    loop
        invariant
            all == edge_views(edges@),
            pos < next <= edges.len(),
            parse_children(all, pos + 1).0 == mapped_views(children@) + parse_children(
                all,
                next as int,
            ).0,
            parse_children(all, pos + 1).1 == parse_children(all, next as int).1,
        ensures
            next >= edges.len() || !edges[next as int].open,
        decreases edges.len() - next,
    {
        if next >= edges.len() || !edges[next].open {
            break ;
        }
        proof {
            lemma_parse_node_sound(all, next as int);
        }
        match parse_node_at(edges, next) {
            Some((child, end)) => {
                let ghost before = children@;
                children.push(child);
                assert(mapped_views(children@) =~= mapped_views(before).push(child@));
                assert(mapped_views(children@) + parse_children(all, end as int).0 =~= mapped_views(
                    before,
                ) + parse_children(all, next as int).0);
                next = end;
            },
            None => {
                return None;
            },
        }
    }
    if next < edges.len() && closes(&edges[pos], &edges[next]) {
        let node = XmlNode {
            kind: edges[pos].kind,
            tag: edges[pos].tag.clone(),
            text: copy_text(&edges[pos].text),
            children,
        };
        proof {
            node.lemma_view();
            assert(node@.children =~= mapped_views(children@));
            assert(parse_node(all, next as int) is None);
            assert(parse_children(all, next as int) == (Seq::<XmlNodeView>::empty(), next as int));
            assert(mapped_views(children@) + Seq::<XmlNodeView>::empty() =~= mapped_views(
                children@,
            ));
            assert(all[pos as int] == edges@[pos as int]@);
            assert(all[next as int] == edges@[next as int]@);
            assert(node@ == node_of(all[pos as int], parse_children(all, pos + 1).0));
        }
        Some((node, next + 1))
    } else {
        None
    }
}

/// The tree of which the list of edges is the walk, if there is one.
pub fn tree_of_edges(edges: &Vec<XmlEdge>) -> (tree: Option<XmlNode>)
    ensures
        match tree {
            Some(node) => node@.edges() == edge_views(edges@) && tree_of(edge_views(edges@))
                == Some(node@),
            None => tree_of(edge_views(edges@)) is None && forall|node: XmlNodeView|
                node.edges() != edge_views(edges@),
        },
{
    proof {
        lemma_tree_of(edge_views(edges@));
    }
    match parse_node_at(edges, 0) {
        Some((node, end)) => {
            if end == edges.len() {
                Some(node)
            } else {
                None
            }
        },
        None => None,
    }
}

} // verus!
