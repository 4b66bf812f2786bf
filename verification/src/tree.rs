//! The syntax tree model that the annotation pass works on.
//!
//! A program holds a forest of nodes. A node is either a markup element —
//! an opening tag with a name, an ordered attribute list and a span of
//! absolute character offsets — or any other construct, of which only the
//! child nodes matter here. Each type has a mathematical view (`AttrV`,
//! `ElementV`, `NodeV`, `ProgramV`) that the contracts speak of.

use vstd::prelude::*;

verus! {

/// One attribute of an opening tag: a name and a string value.
#[derive(Debug, PartialEq, Eq)]
pub struct Attr {
    pub name: String,
    pub value: String,
}

/// A markup element: its opening tag's name, attributes and span, and its
/// child nodes.
#[derive(Debug, PartialEq, Eq)]
pub struct JsxElement {
    /// The tag name of the opening tag.
    pub name: String,
    /// Absolute character offset where the opening tag starts.
    pub span_lo: usize,
    /// Absolute character offset where the element ends.
    pub span_hi: usize,
    /// The opening tag's attributes, in source order.
    pub attrs: Vec<Attr>,
    /// The element's children, in source order.
    pub children: Vec<Node>,
}

/// One node of the tree: a markup element, or any other construct with the
/// child nodes it contains.
#[derive(Debug, PartialEq, Eq)]
pub enum Node {
    Element(JsxElement),
    Other(Vec<Node>),
}

/// A compilation unit: its start offset and its top-level nodes.
#[derive(Debug, PartialEq, Eq)]
pub struct Program {
    /// Absolute character offset of the unit's first character.
    pub span_lo: usize,
    /// The top-level nodes, in source order.
    pub nodes: Vec<Node>,
}

/// The view of an attribute: name and value as character sequences.
#[verifier::ext_equal]
pub struct AttrV {
    pub name: Seq<char>,
    pub value: Seq<char>,
}

/// The view of a markup element.
#[verifier::ext_equal]
pub struct ElementV {
    pub name: Seq<char>,
    pub span_lo: int,
    pub span_hi: int,
    pub attrs: Seq<AttrV>,
    pub children: Seq<NodeV>,
}

/// The view of a node.
#[verifier::ext_equal]
pub enum NodeV {
    Element(ElementV),
    Other(Seq<NodeV>),
}

/// The view of a program.
#[verifier::ext_equal]
pub struct ProgramV {
    pub span_lo: int,
    pub nodes: Seq<NodeV>,
}

impl View for Attr {
    type V = AttrV;

    open spec fn view(&self) -> AttrV {
        AttrV { name: self.name@, value: self.value@ }
    }
}

/// The views of a sequence of attributes, in order.
pub open spec fn view_attrs(s: Seq<Attr>) -> Seq<AttrV> {
    s.map_values(|a: Attr| a@)
}

/// The views of a sequence of nodes, in order.
pub open spec fn view_nodes(ns: Seq<Node>) -> Seq<NodeV>
    decreases ns, 1nat,
{
    if ns.len() == 0 {
        Seq::<NodeV>::empty()
    } else {
        seq![view_node(ns[0])] + view_nodes(ns.drop_first())
    }
}

/// The view of one node.
pub open spec fn view_node(n: Node) -> NodeV
    decreases n, 0nat,
{
    match n {
        Node::Element(e) => NodeV::Element(
            ElementV {
                name: e.name@,
                span_lo: e.span_lo as int,
                span_hi: e.span_hi as int,
                attrs: view_attrs(e.attrs@),
                children: view_nodes(e.children@),
            },
        ),
        Node::Other(children) => NodeV::Other(view_nodes(children@)),
    }
}

impl View for Node {
    type V = NodeV;

    open spec fn view(&self) -> NodeV {
        view_node(*self)
    }
}

impl View for JsxElement {
    type V = ElementV;

    open spec fn view(&self) -> ElementV {
        ElementV {
            name: self.name@,
            span_lo: self.span_lo as int,
            span_hi: self.span_hi as int,
            attrs: view_attrs(self.attrs@),
            children: view_nodes(self.children@),
        }
    }
}

impl View for Program {
    type V = ProgramV;

    open spec fn view(&self) -> ProgramV {
        ProgramV { span_lo: self.span_lo as int, nodes: view_nodes(self.nodes@) }
    }
}

/// `view_nodes` maps the sequence elementwise.
pub proof fn lemma_view_nodes_index(ns: Seq<Node>)
    ensures
        view_nodes(ns).len() == ns.len(),
        forall|i: int| 0 <= i < ns.len() ==> view_nodes(ns)[i] == view_node(ns[i]),
    decreases ns.len(),
{
    if ns.len() > 0 {
        lemma_view_nodes_index(ns.drop_first());
    }
}

/// The number of markup elements in a forest.
pub open spec fn elem_count_nodes(ns: Seq<NodeV>) -> nat
    decreases ns, 1nat,
{
    if ns.len() == 0 {
        0
    } else {
        elem_count_node(ns[0]) + elem_count_nodes(ns.drop_first())
    }
}

/// The number of markup elements in a node's subtree, the node included.
pub open spec fn elem_count_node(n: NodeV) -> nat
    decreases n, 0nat,
{
    match n {
        NodeV::Element(e) => 1 + elem_count_nodes(e.children),
        NodeV::Other(children) => elem_count_nodes(children),
    }
}

/// The tag names of every element in a forest, in pre-order.
pub open spec fn tag_names_nodes(ns: Seq<NodeV>) -> Seq<Seq<char>>
    decreases ns, 1nat,
{
    if ns.len() == 0 {
        Seq::<Seq<char>>::empty()
    } else {
        tag_names_node(ns[0]) + tag_names_nodes(ns.drop_first())
    }
}

/// The tag names of every element in a node's subtree, in pre-order.
pub open spec fn tag_names_node(n: NodeV) -> Seq<Seq<char>>
    decreases n, 0nat,
{
    match n {
        NodeV::Element(e) => seq![e.name] + tag_names_nodes(e.children),
        NodeV::Other(children) => tag_names_nodes(children),
    }
}

/// The attribute lists of every element in a forest, in pre-order.
pub open spec fn attr_lists_nodes(ns: Seq<NodeV>) -> Seq<Seq<AttrV>>
    decreases ns, 1nat,
{
    if ns.len() == 0 {
        Seq::<Seq<AttrV>>::empty()
    } else {
        attr_lists_node(ns[0]) + attr_lists_nodes(ns.drop_first())
    }
}

/// The attribute lists of every element in a node's subtree, in pre-order.
pub open spec fn attr_lists_node(n: NodeV) -> Seq<Seq<AttrV>>
    decreases n, 0nat,
{
    match n {
        NodeV::Element(e) => seq![e.attrs] + attr_lists_nodes(e.children),
        NodeV::Other(children) => attr_lists_nodes(children),
    }
}

/// The opening-tag start offsets of every element in a forest, in pre-order.
pub open spec fn spans_nodes(ns: Seq<NodeV>) -> Seq<int>
    decreases ns, 1nat,
{
    if ns.len() == 0 {
        Seq::<int>::empty()
    } else {
        spans_node(ns[0]) + spans_nodes(ns.drop_first())
    }
}

/// The opening-tag start offsets of every element in a node's subtree, in
/// pre-order.
pub open spec fn spans_node(n: NodeV) -> Seq<int>
    decreases n, 0nat,
{
    match n {
        NodeV::Element(e) => seq![e.span_lo] + spans_nodes(e.children),
        NodeV::Other(children) => spans_nodes(children),
    }
}

/// The pre-order listings of a forest all have one entry per element.
pub proof fn lemma_preorder_lens_nodes(ns: Seq<NodeV>)
    ensures
        tag_names_nodes(ns).len() == elem_count_nodes(ns),
        attr_lists_nodes(ns).len() == elem_count_nodes(ns),
        spans_nodes(ns).len() == elem_count_nodes(ns),
    decreases ns, 1nat,
{
    if ns.len() > 0 {
        lemma_preorder_lens_node(ns[0]);
        lemma_preorder_lens_nodes(ns.drop_first());
    }
}

/// The pre-order listings of a subtree all have one entry per element.
pub proof fn lemma_preorder_lens_node(n: NodeV)
    ensures
        tag_names_node(n).len() == elem_count_node(n),
        attr_lists_node(n).len() == elem_count_node(n),
        spans_node(n).len() == elem_count_node(n),
    decreases n, 0nat,
{
    match n {
        NodeV::Element(e) => {
            lemma_preorder_lens_nodes(e.children);
        },
        NodeV::Other(children) => {
            lemma_preorder_lens_nodes(children);
        },
    }
}

impl Clone for Attr {
    /// Clones an attribute; the copy has the same view.
    fn clone(&self) -> (r: Self)
        ensures
            r@ == self@,
    {
        Attr { name: self.name.clone(), value: self.value.clone() }
    }
}

/// Clones an attribute list; the copy has the same views in the same order.
pub fn clone_attrs(attrs: &Vec<Attr>) -> (r: Vec<Attr>)
    ensures
        view_attrs(r@) == view_attrs(attrs@),
{
    let mut r: Vec<Attr> = Vec::new();
    let mut i: usize = 0;
    while i < attrs.len()
        invariant
            i <= attrs@.len(),
            r@.len() == i,
            forall|j: int| 0 <= j < i ==> (#[trigger] r@[j])@ == attrs@[j]@,
        decreases attrs@.len() - i,
    {
        r.push(attrs[i].clone());
        i = i + 1;
    }
    proof {
        assert(view_attrs(r@) =~= view_attrs(attrs@));
    }
    r
}

} // verus!
