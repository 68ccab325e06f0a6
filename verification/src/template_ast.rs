//! The tree that a template is read into.

use vstd::prelude::*;

verus! {

/// The kind of an attribute of a template element.
#[derive(Debug, Clone, Copy, PartialEq, Eq, Structural)]
pub enum AttrKind {
    /// `class="app"`
    Static,
    /// `:value="count"`
    Bind,
    /// `@click="increment"`
    On,
    /// `v-if`, `v-else`, `v-for` and the like
    Directive,
}

/// An attribute of a template element.
#[derive(Debug, PartialEq)]
pub struct TemplateAttr {
    pub name: String,
    pub value: Option<String>,
    pub kind: AttrKind,
}

/// A node of a template.
#[derive(Debug, PartialEq)]
pub enum Node {
    Element { tag: String, attrs: Vec<TemplateAttr>, children: Vec<Node>, self_closing: bool },
    Text(String),
    /// `{{ expr }}`
    Interpolation(String),
}

/// An attribute as the contracts see it.
pub struct AttrView {
    pub name: Seq<char>,
    pub value: Option<Seq<char>>,
    pub kind: AttrKind,
}

/// A template node as the contracts see it.
pub enum TemplateView {
    Element {
        tag: Seq<char>,
        attrs: Seq<AttrView>,
        children: Seq<TemplateView>,
        self_closing: bool,
    },
    Text(Seq<char>),
    Interpolation(Seq<char>),
}

/// The view of an optional string.
pub open spec fn opt_text(value: Option<String>) -> Option<Seq<char>> {
    match value {
        Some(s) => Some(s@),
        None => None,
    }
}

impl View for TemplateAttr {
    type V = AttrView;

    open spec fn view(&self) -> AttrView {
        AttrView { name: self.name@, value: opt_text(self.value), kind: self.kind }
    }
}

/// The views of the attributes of `attrs`, in order.
pub open spec fn attr_views(attrs: Seq<TemplateAttr>) -> Seq<AttrView> {
    Seq::new(attrs.len(), |i: int| attrs[i]@)
}

/// The views of the nodes of `nodes`, in order.
pub open spec fn node_views(nodes: Seq<Node>) -> Seq<TemplateView>
    decreases nodes,
{
    Seq::new(
        nodes.len(),
        |i: int|
            if 0 <= i < nodes.len() {
                nodes[i].view()
            } else {
                TemplateView::Text(Seq::empty())
            },
    )
}

impl View for Node {
    type V = TemplateView;

    open spec fn view(&self) -> TemplateView
        decreases self,
    {
        match self {
            Node::Element { tag, attrs, children, self_closing } => TemplateView::Element {
                tag: tag@,
                attrs: attr_views(attrs@),
                children: node_views(children@),
                self_closing: *self_closing,
            },
            Node::Text(t) => TemplateView::Text(t@),
            Node::Interpolation(e) => TemplateView::Interpolation(e@),
        }
    }
}

impl Clone for TemplateAttr {
    fn clone(&self) -> (r: TemplateAttr)
        ensures
            r@ == self@,
    {
        let value = match &self.value {
            Some(v) => Some(v.clone()),
            None => None,
        };
        TemplateAttr { name: self.name.clone(), value, kind: self.kind }
    }
}

/// A copy of each attribute of `attrs`, in order.
pub fn clone_attrs(attrs: &Vec<TemplateAttr>) -> (r: Vec<TemplateAttr>)
    ensures
        attr_views(r@) == attr_views(attrs@),
{
    let mut out: Vec<TemplateAttr> = Vec::new();
    let mut i: usize = 0;
    while i < attrs.len()
        invariant
            i <= attrs@.len(),
            out@.len() == i,
            forall|j: int| 0 <= j < i ==> (#[trigger] out@[j])@ == attrs@[j]@,
        decreases attrs@.len() - i,
    {
        out.push(attrs[i].clone());
        i = i + 1;
    }
    assert(attr_views(out@) =~= attr_views(attrs@));
    out
}

/// A copy of each node of `nodes`, in order.
pub fn clone_template(nodes: &Vec<Node>) -> (r: Vec<Node>)
    ensures
        node_views(r@) == node_views(nodes@),
    decreases nodes,
{
    let mut out: Vec<Node> = Vec::new();
    let mut i: usize = 0;
    while i < nodes.len()
        invariant
            i <= nodes@.len(),
            out@.len() == i,
            forall|j: int| 0 <= j < i ==> (#[trigger] out@[j])@ == nodes@[j]@,
        decreases nodes@.len() - i,
    {
        out.push(nodes[i].clone());
        i = i + 1;
    }
    assert(node_views(out@) =~= node_views(nodes@));
    out
}

impl Clone for Node {
    fn clone(&self) -> (r: Node)
        ensures
            r@ == self@,
        decreases self,
    {
        match self {
            Node::Element { tag, attrs, children, self_closing } => Node::Element {
                tag: tag.clone(),
                attrs: clone_attrs(attrs),
                children: clone_template(children),
                self_closing: *self_closing,
            },
            Node::Text(t) => Node::Text(t.clone()),
            Node::Interpolation(e) => Node::Interpolation(e.clone()),
        }
    }
}

} // verus!
