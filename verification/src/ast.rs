//! The document tree: a flat sequence of top-level nodes, where a JSX
//! element owns its ordered children. Nodes are built once by the parser and
//! only read afterwards.
use crate::tokenizer::{AttrValueView, AttrView};
use vstd::prelude::*;

verus! {

broadcast use vstd::std_specs::vec::group_vec_axioms, vstd::seq::group_seq_axioms;

/// One node of the parsed document.
#[derive(Debug, PartialEq)]
pub enum MdxNode {
    Frontmatter(String),
    Import(String),
    Export(String),
    /// Opaque markdown text, passed through untouched until the rewriter.
    Markdown(String),
    /// An embedded expression, held as raw source text and never evaluated.
    Expression(String),
    JsxElement {
        tag: String,
        attributes: Vec<Attribute>,
        children: Vec<MdxNode>,
        self_closing: bool,
    },
}

/// A JSX attribute on an element.
#[derive(Debug, Clone, PartialEq)]
pub struct Attribute {
    pub name: String,
    pub value: Option<AttrValue>,
}

/// An attribute value: a string literal or an opaque expression.
#[derive(Debug, Clone, PartialEq)]
pub enum AttrValue {
    String(String),
    Expression(String),
}

/// A document: one ordered sequence of top-level nodes.
#[derive(Debug, PartialEq)]
pub struct MdxDocument {
    pub nodes: Vec<MdxNode>,
}

/// The view of a node.
pub enum NodeView {
    Frontmatter(Seq<char>),
    Import(Seq<char>),
    Export(Seq<char>),
    Markdown(Seq<char>),
    Expression(Seq<char>),
    Element {
        tag: Seq<char>,
        attributes: Seq<AttrView>,
        children: Seq<NodeView>,
        self_closing: bool,
    },
}

impl View for AttrValue {
    type V = AttrValueView;

    open spec fn view(&self) -> AttrValueView {
        match self {
            AttrValue::String(s) => AttrValueView::Lit(s@),
            AttrValue::Expression(e) => AttrValueView::Expr(e@),
        }
    }
}

impl View for Attribute {
    type V = AttrView;

    open spec fn view(&self) -> AttrView {
        AttrView {
            name: self.name@,
            value: match self.value {
                Some(v) => Some(v@),
                None => None,
            },
        }
    }
}

/// The view of a node, element children viewed recursively.
pub open spec fn node_view(n: MdxNode) -> NodeView
    decreases n,
{
    match n {
        MdxNode::Frontmatter(t) => NodeView::Frontmatter(t@),
        MdxNode::Import(t) => NodeView::Import(t@),
        MdxNode::Export(t) => NodeView::Export(t@),
        MdxNode::Markdown(t) => NodeView::Markdown(t@),
        MdxNode::Expression(t) => NodeView::Expression(t@),
        MdxNode::JsxElement { tag, attributes, children, self_closing } => NodeView::Element {
            tag: tag@,
            attributes: attributes@.map_values(|a: Attribute| a@),
            children: vec_nodes_view(children),
            self_closing,
        },
    }
}

/// The view of a vector of nodes.
pub open spec fn vec_nodes_view(v: Vec<MdxNode>) -> Seq<NodeView>
    decreases v,
{
    nodes_view(v@)
}

/// The view of a node sequence.
pub open spec fn nodes_view(ns: Seq<MdxNode>) -> Seq<NodeView>
    decreases ns,
{
    if ns.len() == 0 {
        Seq::empty()
    } else {
        seq![node_view(ns[0])] + nodes_view(ns.drop_first())
    }
}

/// `nodes_view` maps `node_view` over the sequence, index by index.
pub proof fn lemma_nodes_view(ns: Seq<MdxNode>)
    ensures
        nodes_view(ns).len() == ns.len(),
        forall|i: int| 0 <= i < ns.len() ==> nodes_view(ns)[i] == node_view(ns[i]),
    decreases ns.len(),
{
    if ns.len() > 0 {
        lemma_nodes_view(ns.drop_first());
    }
}

/// `nodes_view` distributes over `push`.
pub proof fn lemma_nodes_view_push(ns: Seq<MdxNode>, n: MdxNode)
    ensures
        nodes_view(ns.push(n)) == nodes_view(ns).push(node_view(n)),
{
    lemma_nodes_view(ns);
    lemma_nodes_view(ns.push(n));
    assert(nodes_view(ns.push(n)) =~= nodes_view(ns).push(node_view(n)));
}

impl View for MdxDocument {
    type V = Seq<NodeView>;

    open spec fn view(&self) -> Seq<NodeView> {
        nodes_view(self.nodes@)
    }
}

} // verus!
