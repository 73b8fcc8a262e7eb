//! The flat form of a markup tree, as a sequence of open and close events, and the
//! construction of the tree from it.
use vstd::prelude::*;
use crate::node::{attrs_view, node_view, nodes_view, Element, ElementView, Markup, Node};

verus! {

/// One step of a depth-first walk over a markup tree. Every node is announced by an opening
/// event and ended by a `Close`.
#[derive(Debug)]
pub enum MarkupEvent {
    /// An element begins: its tag name and its attributes.
    Open(String, Vec<(String, String)>),
    /// A text node begins.
    Text(String),
    /// A node of another kind begins (a comment, a doctype, the document itself).
    Other,
    /// The node that was opened last and not yet closed ends.
    Close,
}

/// Mathematical model of a `MarkupEvent`.
pub enum EventView {
    Open(Seq<char>, Seq<(Seq<char>, Seq<char>)>),
    Text(Seq<char>),
    Other,
    Close,
}

impl View for MarkupEvent {
    type V = EventView;

    open spec fn view(&self) -> EventView {
        match self {
            MarkupEvent::Open(tag, attrs) => EventView::Open(tag@, attrs_view(attrs@)),
            MarkupEvent::Text(t) => EventView::Text(t@),
            MarkupEvent::Other => EventView::Other,
            MarkupEvent::Close => EventView::Close,
        }
    }
}

/// The models of a sequence of events.
pub open spec fn events_view(events: Seq<MarkupEvent>) -> Seq<EventView> {
    Seq::new(events.len(), |i: int| events[i]@)
}

/// A run of sibling nodes read from an event sequence, and the position after it.
pub struct Siblings {
    pub nodes: Seq<Markup>,
    pub end: nat,
}

/// The sibling nodes that the events from `pos` on describe, up to the `Close` that ends
/// their parent or to the end of the events, and the position after that `Close`.
///
/// Elements keep their children. What stands inside a text node or a node of another kind
/// is left out, and so is every node of another kind.
pub open spec fn siblings(events: Seq<EventView>, pos: nat) -> Siblings
    decreases events.len() - pos,
{
    if pos >= events.len() {
        Siblings { nodes: Seq::empty(), end: pos }
    } else {
        let inner = siblings(events, pos + 1);
        let rest = if pos < inner.end <= events.len() {
            siblings(events, inner.end)
        } else {
            Siblings { nodes: Seq::empty(), end: events.len() }
        };
        match events[pos as int] {
            EventView::Close => Siblings { nodes: Seq::empty(), end: pos + 1 },
            EventView::Open(tag, attrs) => Siblings {
                nodes: seq![
                    Markup::Element(ElementView { tag: tag, attrs: attrs, children: inner.nodes }),
                ] + rest.nodes,
                end: rest.end,
            },
            EventView::Text(t) => Siblings {
                nodes: seq![Markup::Text(t)] + rest.nodes,
                end: rest.end,
            },
            EventView::Other => rest,
        }
    }
}

/// The top-level nodes that an event sequence describes.
pub open spec fn forest(events: Seq<EventView>) -> Seq<Markup> {
    siblings(events, 0).nodes
}

/// A run of siblings ends after where it starts, and within the events.
pub proof fn lemma_siblings_end(events: Seq<EventView>, pos: nat)
    ensures
        pos < events.len() ==> pos < siblings(events, pos).end <= events.len(),
        pos >= events.len() ==> siblings(events, pos).end == pos,
    decreases events.len() - pos,
{
    if pos < events.len() {
        lemma_siblings_end(events, pos + 1);
        let inner = siblings(events, pos + 1);
        if pos < inner.end <= events.len() {
            lemma_siblings_end(events, inner.end);
        }
    }
}

/// A copy of an attribute list, string by string.
fn copy_attrs(attrs: &Vec<(String, String)>) -> (out: Vec<(String, String)>)
    ensures
        out@ == attrs@,
{
    let mut out: Vec<(String, String)> = Vec::new();
    let n: usize = attrs.len();
    let mut i: usize = 0;
    while i < n
        invariant
            i <= n,
            n == attrs.len(),
            out@ == attrs@.take(i as int),
        decreases n - i,
    {
        let name = attrs[i].0.clone();
        let value = attrs[i].1.clone();
        out.push((name, value));
        assert(out@ =~= attrs@.take(i + 1));
        i += 1;
    }
    assert(attrs@.take(n as int) =~= attrs@);
    out
}

/// Reads the siblings that start at `pos`.
fn build_siblings(events: &Vec<MarkupEvent>, pos: usize) -> (out: (Vec<Node>, usize))
    requires
        pos <= events.len(),
    ensures
        nodes_view(out.0@) == siblings(events_view(events@), pos as nat).nodes,
        out.1 == siblings(events_view(events@), pos as nat).end,
        pos <= out.1 <= events.len(),
        pos < events.len() ==> pos < out.1,
    decreases events.len() - pos,
{
    let ghost all = events_view(events@);
    let n: usize = events.len();
    let mut nodes: Vec<Node> = Vec::new();
    let mut p: usize = pos;
    proof {
        lemma_siblings_end(all, pos as nat);
        assert(nodes_view(nodes@) + siblings(all, pos as nat).nodes =~= siblings(
            all,
            pos as nat,
        ).nodes);
    }
    loop
        invariant
            pos <= p <= n,
            n == events.len(),
            all == events_view(events@),
            siblings(all, pos as nat).nodes == nodes_view(nodes@) + siblings(all, p as nat).nodes,
            siblings(all, pos as nat).end == siblings(all, p as nat).end,
            pos < n ==> p < n || pos < p,
        decreases n - p,
    {
        if p >= n {
            assert(nodes_view(nodes@) + Seq::<Markup>::empty() =~= nodes_view(nodes@));
            return (nodes, p);
        }
        let ghost before = nodes_view(nodes@);
        proof {
            lemma_siblings_end(all, (p + 1) as nat);
            lemma_siblings_end(all, siblings(all, (p + 1) as nat).end);
            assert(all[p as int] == events@[p as int]@);
        }
        match &events[p] {
            MarkupEvent::Close => {
                assert(before + Seq::<Markup>::empty() =~= before);
                return (nodes, p + 1);
            },
            MarkupEvent::Open(tag, attrs) => {
                let (children, q) = build_siblings(events, p + 1);
                let element = Element { tag: tag.clone(), attrs: copy_attrs(attrs), children };
                let ghost added = node_view(Node::Element(element));
                nodes.push(Node::Element(element));
                proof {
                    assert(nodes_view(nodes@) =~= before.push(added));
                    assert(before.push(added) + siblings(all, q as nat).nodes =~= before + (
                    seq![added] + siblings(all, q as nat).nodes));
                }
                p = q;
            },
            MarkupEvent::Text(t) => {
                let (_, q) = build_siblings(events, p + 1);
                let ghost added = Markup::Text(t@);
                nodes.push(Node::Text(t.clone()));
                proof {
                    assert(nodes_view(nodes@) =~= before.push(added));
                    assert(before.push(added) + siblings(all, q as nat).nodes =~= before + (
                    seq![added] + siblings(all, q as nat).nodes));
                }
                p = q;
            },
            MarkupEvent::Other => {
                let (_, q) = build_siblings(events, p + 1);
                p = q;
            },
        }
    }
}

/// Builds the top-level nodes that an event sequence describes.
///
/// Every sequence is accepted: a `Close` with nothing open ends the reading, and what is
/// still open at the end of the events is closed there.
pub fn build_forest(events: &Vec<MarkupEvent>) -> (out: Vec<Node>)
    ensures
        nodes_view(out@) == forest(events_view(events@)),
{
    build_siblings(events, 0).0
}

} // verus!
