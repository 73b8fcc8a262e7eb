//! The parsed markup tree: text nodes and element nodes, with the queries the extraction
//! engine makes of them.
use vstd::prelude::*;
use crate::text::{same_text, views};

verus! {

/// Mathematical model of a markup node.
pub enum Markup {
    /// A text fragment.
    Text(Seq<char>),
    /// An element with its subtree.
    Element(ElementView),
}

/// Mathematical model of an element node.
pub struct ElementView {
    pub tag: Seq<char>,
    pub attrs: Seq<(Seq<char>, Seq<char>)>,
    pub children: Seq<Markup>,
}

/// A node of a parsed markup tree.
#[derive(Debug)]
pub enum Node {
    /// A text fragment.
    Text(String),
    /// An element with its subtree.
    Element(Element),
}

/// An element node: a lower-case tag name, its attributes as pairs of name and value, and
/// its children in document order.
#[derive(Debug)]
pub struct Element {
    pub tag: String,
    pub attrs: Vec<(String, String)>,
    pub children: Vec<Node>,
}

/// The model of an attribute list.
pub open spec fn attrs_view(attrs: Seq<(String, String)>) -> Seq<(Seq<char>, Seq<char>)> {
    Seq::new(attrs.len(), |i: int| (attrs[i].0@, attrs[i].1@))
}

/// The model of one node.
pub open spec fn node_view(node: Node) -> Markup
    decreases node,
{
    match node {
        Node::Text(s) => Markup::Text(s@),
        Node::Element(e) => Markup::Element(
            ElementView {
                tag: e.tag@,
                attrs: attrs_view(e.attrs@),
                children: nodes_view(e.children@),
            },
        ),
    }
}

/// The models of a sequence of nodes.
pub open spec fn nodes_view(nodes: Seq<Node>) -> Seq<Markup>
    decreases nodes,
{
    Seq::new(
        nodes.len(),
        |i: int|
            if 0 <= i < nodes.len() {
                node_view(nodes[i])
            } else {
                Markup::Text(Seq::empty())
            },
    )
}

impl View for Node {
    type V = Markup;

    open spec fn view(&self) -> Markup {
        node_view(*self)
    }
}

impl View for Element {
    type V = ElementView;

    open spec fn view(&self) -> ElementView {
        ElementView {
            tag: self.tag@,
            attrs: attrs_view(self.attrs@),
            children: nodes_view(self.children@),
        }
    }
}

/// The models of a sequence of borrowed elements.
pub open spec fn elements_view(elements: Seq<&Element>) -> Seq<ElementView> {
    Seq::new(elements.len(), |i: int| elements[i]@)
}

/// The value of the first attribute called `name`, if there is one.
pub open spec fn attr_value(attrs: Seq<(Seq<char>, Seq<char>)>, name: Seq<char>) -> Option<
    Seq<char>,
>
    decreases attrs.len(),
{
    if attrs.len() == 0 {
        None
    } else if attrs[0].0 == name {
        Some(attrs[0].1)
    } else {
        attr_value(attrs.drop_first(), name)
    }
}

/// The text fragments at and below the first `n` of `nodes`, in document order.
pub open spec fn texts(nodes: Seq<Markup>, n: nat) -> Seq<Seq<char>>
    decreases nodes, n,
{
    if n == 0 || n > nodes.len() {
        Seq::empty()
    } else {
        let before = texts(nodes, (n - 1) as nat);
        match nodes[n - 1] {
            Markup::Text(t) => before.push(t),
            Markup::Element(e) => before + texts(e.children, e.children.len()),
        }
    }
}

/// The elements called `tag` at and below the first `n` of `nodes`, in document order, an
/// element before its descendants.
pub open spec fn elements_named(nodes: Seq<Markup>, n: nat, tag: Seq<char>) -> Seq<ElementView>
    decreases nodes, n,
{
    if n == 0 || n > nodes.len() {
        Seq::empty()
    } else {
        let before = elements_named(nodes, (n - 1) as nat, tag);
        match nodes[n - 1] {
            Markup::Text(_) => before,
            Markup::Element(e) => {
                let below = elements_named(e.children, e.children.len(), tag);
                if e.tag == tag {
                    before.push(e) + below
                } else {
                    before + below
                }
            },
        }
    }
}

impl ElementView {
    /// The value of the attribute `name`, if the element has it.
    pub open spec fn attr(self, name: Seq<char>) -> Option<Seq<char>> {
        attr_value(self.attrs, name)
    }

    /// The text fragments below the element, in document order.
    pub open spec fn texts(self) -> Seq<Seq<char>> {
        texts(self.children, self.children.len())
    }

    /// The descendants called `tag`, in document order.
    pub open spec fn descendants_named(self, tag: Seq<char>) -> Seq<ElementView> {
        elements_named(self.children, self.children.len(), tag)
    }
}

impl Element {
    /// The value of the attribute `name`, if the element has it.
    pub fn attr(&self, name: &str) -> (value: Option<&str>)
        ensures
            match value {
                Some(v) => self@.attr(name@) == Some(v@),
                None => self@.attr(name@) is None,
            },
    {
        let n: usize = self.attrs.len();
        let mut i: usize = 0;
        let ghost all = attrs_view(self.attrs@);
        assert(all.skip(0) =~= all);
        while i < n
            invariant
                i <= n,
                n == self.attrs.len(),
                all == attrs_view(self.attrs@),
                attr_value(all, name@) == attr_value(all.skip(i as int), name@),
            decreases n - i,
        {
            assert(all.skip(i as int)[0] == all[i as int]);
            assert(all.skip(i as int).drop_first() =~= all.skip(i + 1));
            if same_text(self.attrs[i].0.as_str(), name) {
                return Some(self.attrs[i].1.as_str());
            }
            i += 1;
        }
        None
    }

    /// The text fragments below the element, in document order.
    pub fn texts(&self) -> (out: Vec<String>)
        ensures
            views(out@) == self@.texts(),
    {
        collect_texts(&self.children)
    }

    /// The descendants called `tag`, in document order.
    pub fn descendants_named(&self, tag: &str) -> (out: Vec<&Element>)
        ensures
            elements_view(out@) == self@.descendants_named(tag@),
    {
        collect_named(&self.children, tag)
    }
}

/// The text fragments at and below `nodes`, in document order.
pub fn collect_texts(nodes: &Vec<Node>) -> (out: Vec<String>)
    ensures
        views(out@) == texts(nodes_view(nodes@), nodes.len() as nat),
    decreases nodes,
{
    let mut out: Vec<String> = Vec::new();
    let n: usize = nodes.len();
    let mut i: usize = 0;
    assert(views(out@) =~= Seq::<Seq<char>>::empty());
    while i < n
        invariant
            i <= n,
            n == nodes.len(),
            views(out@) == texts(nodes_view(nodes@), i as nat),
        decreases n - i,
    {
        let ghost before = views(out@);
        match &nodes[i] {
            Node::Text(s) => {
                out.push(s.clone());
                assert(views(out@) =~= before.push(s@));
            },
            Node::Element(e) => {
                let mut below = collect_texts(&e.children);
                let ghost added = views(below@);
                out.append(&mut below);
                assert(views(out@) =~= before + added);
            },
        }
        i += 1;
    }
    out
}

/// The elements called `tag` at and below `nodes`, in document order.
pub fn collect_named<'a>(nodes: &'a Vec<Node>, tag: &str) -> (out: Vec<&'a Element>)
    ensures
        elements_view(out@) == elements_named(nodes_view(nodes@), nodes.len() as nat, tag@),
    decreases nodes,
{
    let mut out: Vec<&'a Element> = Vec::new();
    let n: usize = nodes.len();
    let mut i: usize = 0;
    assert(elements_view(out@) =~= Seq::<ElementView>::empty());
    while i < n
        invariant
            i <= n,
            n == nodes.len(),
            elements_view(out@) == elements_named(nodes_view(nodes@), i as nat, tag@),
        decreases n - i,
    {
        let ghost before = elements_view(out@);
        match &nodes[i] {
            Node::Text(_) => {},
            Node::Element(e) => {
                if same_text(e.tag.as_str(), tag) {
                    out.push(e);
                    assert(elements_view(out@) =~= before.push(e@));
                }
                let ghost middle = elements_view(out@);
                let mut below = collect_named(&e.children, tag);
                let ghost added = elements_view(below@);
                out.append(&mut below);
                assert(elements_view(out@) =~= middle + added);
            },
        }
        i += 1;
    }
    out
}

} // verus!
