//! What a renderer needs of a tree before it draws: the counts of a mounted
//! tree, and the keyed reordering of a child list.

use crate::dom::{lookup, views, well_formed, NodeView, VNode};
use crate::style::Stylesheet;
use vstd::prelude::*;

verus! {

/// The value of the `key` attribute of an element; a text has none.
pub open spec fn node_key(node: NodeView) -> Option<Seq<char>> {
    match node {
        NodeView::Element { attrs, .. } => lookup(attrs, "key"@),
        NodeView::Text(_) => None,
    }
}

/// The node at `i` carries the key `key`.
pub open spec fn keyed_at(nodes: Seq<NodeView>, key: Seq<char>, i: int) -> bool {
    0 <= i < nodes.len() && node_key(nodes[i]) == Some(key)
}

/// `i` is the last position of `nodes` that carries the key `key`.
pub open spec fn last_keyed_at(nodes: Seq<NodeView>, key: Seq<char>, i: int) -> bool {
    keyed_at(nodes, key, i) && forall|j: int| keyed_at(nodes, key, j) ==> j <= i
}

/// The node of `old` that stands for `fresh` after the reordering: the last
/// node of `old` with the key of `fresh`, or `fresh` itself where it has no
/// key or `old` has no node with that key.
pub open spec fn reused(old: Seq<NodeView>, fresh: NodeView) -> NodeView {
    match node_key(fresh) {
        Some(key) => if exists|i: int| keyed_at(old, key, i) {
            old[choose|i: int| last_keyed_at(old, key, i)]
        } else {
            fresh
        },
        None => fresh,
    }
}

/// The child list after the keyed reordering: as long as `new`, each place
/// holding the node of `old` with the same key, if there is one, and else the
/// node of `new`.
pub open spec fn reconciled(old: Seq<NodeView>, new: Seq<NodeView>) -> Seq<NodeView> {
    Seq::new(new.len(), |j: int| reused(old, new[j]))
}

/// The `key` attribute of `node`, if it is an element that has one.
fn key_of(node: &VNode) -> (r: Option<&String>)
    ensures
        match r {
            Some(k) => node_key(node@) == Some(k@),
            None => node_key(node@).is_none(),
        },
{
    match node {
        VNode::Element { props, .. } => props.get("key"),
        VNode::Text(_) => None,
    }
}

/// The last position of `nodes` whose node carries the key `key`.
fn find_keyed(nodes: &Vec<VNode>, key: &str) -> (r: Option<usize>)
    ensures
        match r {
            Some(i) => last_keyed_at(views(nodes@), key@, i as int),
            None => !(exists|i: int| keyed_at(views(nodes@), key@, i)),
        },
{
    let ghost vs = views(nodes@);
    let mut i: usize = nodes.len();
    while i > 0
        invariant
            i <= nodes@.len(),
            vs == views(nodes@),
            forall|j: int| i <= j < nodes@.len() ==> !keyed_at(vs, key@, j),
        decreases i,
    {
        i = i - 1;
        assert(vs[i as int] == nodes@[i as int]@);
        match key_of(&nodes[i]) {
            Some(k) => {
                if k.as_str().eq(key) {
                    return Some(i);
                }
            },
            None => {},
        }
    }
    None
}

/// Reorders `current` after `new` by the optional `key` attribute: the result is
/// as long as `new`; where a node of `new` has a key that a node of `current`
/// carries, the place holds a copy of that old node (the last one, if several
/// carry the key), and else a copy of the new node. No patch is made: the
/// result is meant to be diffed again.
pub fn reconcile_keyed_children(current: &mut Vec<VNode>, new: &Vec<VNode>)
    ensures
        views(final(current)@) == reconciled(views(old(current)@), views(new@)),
{
    let ghost vo = views(current@);
    let ghost vn = views(new@);
    let mut out: Vec<VNode> = Vec::new();
    let mut j: usize = 0;
    while j < new.len()
        invariant
            j <= new@.len(),
            vo == views(current@),
            vn == views(new@),
            out@.len() == j,
            forall|m: int| 0 <= m < j ==> (#[trigger] out@[m])@ == reused(vo, vn[m]),
        decreases new@.len() - j,
    {
        assert(vn[j as int] == new@[j as int]@);
        let found = match key_of(&new[j]) {
            Some(k) => find_keyed(current, k.as_str()),
            None => None,
        };
        match found {
            Some(idx) => {
                assert(vo[idx as int] == current@[idx as int]@);
                proof {
                    let key = node_key(vn[j as int]).unwrap();
                    let c = choose|i: int| last_keyed_at(vo, key, i);
                    assert(last_keyed_at(vo, key, idx as int));
                    assert(c == idx);
                }
                out.push(current[idx].clone());
            },
            None => {
                out.push(new[j].clone());
            },
        }
        j = j + 1;
    }
    assert(views(out@) =~= reconciled(vo, vn));
    *current = out;
}

/// A mounted tree: the tree with the number of its nodes and of its texts.
pub struct RenderTree {
    pub root: VNode,
    pub node_count: usize,
    pub text_count: usize,
}

/// The number of nodes of the tree, texts included.
pub open spec fn node_total(node: NodeView) -> nat
    decreases node, 0nat,
{
    match node {
        NodeView::Text(_) => 1,
        NodeView::Element { children, .. } => 1 + nodes_among(children, children.len()),
    }
}

/// The number of nodes of the first `n` trees of `nodes`.
pub open spec fn nodes_among(nodes: Seq<NodeView>, n: nat) -> nat
    decreases nodes, n,
{
    if n == 0 || n > nodes.len() {
        0
    } else {
        nodes_among(nodes, (n - 1) as nat) + node_total(nodes[n - 1])
    }
}

/// The number of texts of the tree.
pub open spec fn text_total(node: NodeView) -> nat
    decreases node, 0nat,
{
    match node {
        NodeView::Text(_) => 1,
        NodeView::Element { children, .. } => texts_among(children, children.len()),
    }
}

/// The number of texts of the first `n` trees of `nodes`.
pub open spec fn texts_among(nodes: Seq<NodeView>, n: nat) -> nat
    decreases nodes, n,
{
    if n == 0 || n > nodes.len() {
        0
    } else {
        texts_among(nodes, (n - 1) as nat) + text_total(nodes[n - 1])
    }
}

/// A tree has no more texts than nodes.
pub proof fn texts_are_nodes(node: NodeView)
    ensures
        text_total(node) <= node_total(node),
    decreases node, 0nat,
{
    match node {
        NodeView::Text(_) => {},
        NodeView::Element { children, .. } => {
            texts_are_nodes_among(children, children.len());
        },
    }
}

proof fn texts_are_nodes_among(nodes: Seq<NodeView>, n: nat)
    ensures
        texts_among(nodes, n) <= nodes_among(nodes, n),
    decreases nodes, n,
{
    if n == 0 || n > nodes.len() {
    } else {
        texts_are_nodes_among(nodes, (n - 1) as nat);
        texts_are_nodes(nodes[n - 1]);
    }
}

proof fn nodes_among_grows(nodes: Seq<NodeView>, m: nat, n: nat)
    requires
        m <= n <= nodes.len(),
    ensures
        nodes_among(nodes, m) <= nodes_among(nodes, n),
    decreases n,
{
    if m < n {
        nodes_among_grows(nodes, m, (n - 1) as nat);
    }
}

/// Adds the nodes of the tree to the first count and its texts to the second.
/// The walk finds the tree well formed, as every tree is.
pub fn summarize(v: &VNode, counts: &mut (usize, usize))
    requires
        old(counts).0 + node_total(v@) <= usize::MAX,
        old(counts).1 <= old(counts).0,
    ensures
        final(counts).0 == old(counts).0 + node_total(v@),
        final(counts).1 == old(counts).1 + text_total(v@),
        final(counts).1 <= final(counts).0,
        well_formed(v@),
    decreases v, 0nat,
{
    proof {
        texts_are_nodes(v@);
    }
    match v {
        VNode::Text(_) => {
            counts.0 = counts.0 + 1;
            counts.1 = counts.1 + 1;
        },
        VNode::Element { props, children, .. } => {
            props.keys_are_distinct();
            counts.0 = counts.0 + 1;
            summarize_all(children, counts);
        },
    }
}

/// Adds the nodes of the trees to the first count and their texts to the
/// second.
fn summarize_all(nodes: &Vec<VNode>, counts: &mut (usize, usize))
    requires
        old(counts).0 + nodes_among(views(nodes@), nodes@.len()) <= usize::MAX,
        old(counts).1 <= old(counts).0,
    ensures
        final(counts).0 == old(counts).0 + nodes_among(views(nodes@), nodes@.len()),
        final(counts).1 == old(counts).1 + texts_among(views(nodes@), nodes@.len()),
        final(counts).1 <= final(counts).0,
        forall|k: int| 0 <= k < nodes@.len() ==> well_formed(#[trigger] views(nodes@)[k]),
    decreases nodes, 1nat,
{
    let ghost kids = views(nodes@);
    let ghost c0 = counts.0;
    let ghost c1 = counts.1;
    let mut i: usize = 0;
    while i < nodes.len()
        invariant
            i <= nodes@.len(),
            kids == views(nodes@),
            c0 + nodes_among(kids, kids.len()) <= usize::MAX,
            counts.0 == c0 + nodes_among(kids, i as nat),
            counts.1 == c1 + texts_among(kids, i as nat),
            c1 <= c0,
            forall|k: int| 0 <= k < i ==> well_formed(#[trigger] kids[k]),
        decreases nodes@.len() - i,
    {
        proof {
            assert(kids[i as int] == nodes@[i as int]@);
            nodes_among_grows(kids, (i + 1) as nat, kids.len());
            texts_are_nodes_among(kids, i as nat);
        }
        summarize(&nodes[i], counts);
        i = i + 1;
    }
    proof {
        texts_are_nodes_among(kids, kids.len());
    }
}

/// The mounted form of the tree: a copy of it with its counts. The tree is
/// well formed, as every tree is.
pub fn build_render_tree(v: &VNode) -> (tree: RenderTree)
    requires
        node_total(v@) <= usize::MAX,
    ensures
        tree.root@ == v@,
        tree.node_count == node_total(v@),
        tree.text_count == text_total(v@),
        well_formed(v@),
{
    let mut counts: (usize, usize) = (0, 0);
    summarize(v, &mut counts);
    RenderTree { root: v.clone(), node_count: counts.0, text_count: counts.1 }
}

/// What every backend offers.
pub trait Renderer {
    /// The name of the backend.
    fn backend_name(&self) -> &'static str;

    /// Mounts the tree: hands back a copy of it with its counts.
    fn mount(&self, vnode: &VNode) -> (tree: RenderTree)
        requires
            node_total(vnode@) <= usize::MAX,
        ensures
            tree.root@ == vnode@,
            tree.node_count == node_total(vnode@),
            tree.text_count == text_total(vnode@),
    ;
}

/// The backend that draws with the GPU.
pub struct WgpuRenderer;

impl Renderer for WgpuRenderer {
    fn backend_name(&self) -> (name: &'static str)
        ensures
            name@ == "wgpu"@,
    {
        "wgpu"
    }

    fn mount(&self, vnode: &VNode) -> (tree: RenderTree) {
        build_render_tree(vnode)
    }
}

/// The backend that draws with a raster library.
pub struct SkiaRenderer;

impl Renderer for SkiaRenderer {
    fn backend_name(&self) -> (name: &'static str)
        ensures
            name@ == "skia"@,
    {
        "skia"
    }

    fn mount(&self, vnode: &VNode) -> (tree: RenderTree) {
        build_render_tree(vnode)
    }
}

/// The backend that draws nothing.
pub struct StubRenderer;

impl Renderer for StubRenderer {
    fn backend_name(&self) -> (name: &'static str)
        ensures
            name@ == "stub"@,
    {
        "stub"
    }

    fn mount(&self, vnode: &VNode) -> (tree: RenderTree) {
        build_render_tree(vnode)
    }
}

/// The runtime that turns input events into dispatches.
pub type EventRuntime<H> = crate::events::Runtime<H>;

/// The renderer that `new_selected_renderer` makes.
pub type SelectedRenderer = StubRenderer;

/// The name of the selected backend.
pub fn backend_name() -> (name: &'static str)
    ensures
        name@ == "stub"@,
{
    "stub"
}

/// The selected renderer.
pub fn new_selected_renderer() -> (renderer: SelectedRenderer) {
    StubRenderer
}

/// Prepares the selected backend, which needs no preparation.
pub fn init() {
}

/// What the raster functions of the selected backend answer.
pub open spec fn no_raster() -> Seq<char> {
    "skia-native feature not enabled"@
}

/// A surface to draw on; the selected backend has none.
pub struct Surface {
    _private: (),
}

/// A window surface of the given size: the selected backend has none, and
/// says so.
pub fn create_window_surface(_w: i32, _h: i32) -> (r: Result<Surface, String>)
    ensures
        r matches Err(e) && e@ == no_raster(),
{
    Err(String::from_str("skia-native feature not enabled"))
}

/// The tree drawn as a PNG image of the given size: the selected backend
/// draws none, and says so.
pub fn render_vnode_to_raster_png(_vnode: &VNode, _sheet: &Stylesheet, _width: i32, _height: i32) -> (r:
    Result<Vec<u8>, String>)
    ensures
        r matches Err(e) && e@ == no_raster(),
{
    Err(String::from_str("skia-native feature not enabled"))
}

} // verus!
