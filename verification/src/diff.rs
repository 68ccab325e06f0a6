//! The tree diff: from two snapshots to the ordered list of patches that
//! turns the first into the second.

use crate::dom::{
    attr_map, has_key, key_index, lemma_lookup_at, lemma_same_map, lookup, unique_keys, views,
    well_formed, Attrs, NodeView, Props, VNode,
};
use vstd::prelude::*;

verus! {

/// A patch as the contracts see it.
pub enum PatchView {
    Replace(NodeView),
    SetAttr(Seq<char>, Seq<char>),
    RemoveAttr(Seq<char>),
    UpdateChild(nat, Seq<PatchView>),
    InsertChild(nat, NodeView),
    RemoveChild(nat),
}

/// One mutation instruction.
#[derive(Debug, PartialEq)]
pub enum Patch {
    /// Put this node in the place of the old one.
    Replace(VNode),
    /// Set the attribute to the value.
    SetAttr(String, String),
    /// Remove the attribute.
    RemoveAttr(String),
    /// Apply the patches to the child at the index.
    UpdateChild(usize, Vec<Patch>),
    /// Insert the node as the child at the index.
    InsertChild(usize, VNode),
    /// Remove the child at the index.
    RemoveChild(usize),
}

/// The views of the patches of `patches`, in order.
pub open spec fn patch_views(patches: Seq<Patch>) -> Seq<PatchView>
    decreases patches,
{
    Seq::new(
        patches.len(),
        |i: int|
            if 0 <= i < patches.len() {
                patches[i].view()
            } else {
                PatchView::RemoveChild(0)
            },
    )
}

impl View for Patch {
    type V = PatchView;

    open spec fn view(&self) -> PatchView
        decreases self,
    {
        match self {
            Patch::Replace(n) => PatchView::Replace(n@),
            Patch::SetAttr(k, v) => PatchView::SetAttr(k@, v@),
            Patch::RemoveAttr(k) => PatchView::RemoveAttr(k@),
            Patch::UpdateChild(i, ps) => PatchView::UpdateChild(*i as nat, patch_views(ps@)),
            Patch::InsertChild(i, n) => PatchView::InsertChild(*i as nat, n@),
            Patch::RemoveChild(i) => PatchView::RemoveChild(*i as nat),
        }
    }
}

/// For each of the first `n` attributes of `new`, in order, whose value `old`
/// lacks or has otherwise: `SetAttr` with the new value.
pub open spec fn set_patches(old: Attrs, new: Attrs, n: nat) -> Seq<PatchView>
    decreases n,
{
    if n == 0 || n > new.len() {
        Seq::empty()
    } else {
        let rest = set_patches(old, new, (n - 1) as nat);
        let entry = new[n - 1];
        if lookup(old, entry.0) == Some(entry.1) {
            rest
        } else {
            rest.push(PatchView::SetAttr(entry.0, entry.1))
        }
    }
}

/// For each of the first `n` attributes of `old`, in order, whose key `new`
/// lacks: `RemoveAttr`.
pub open spec fn remove_patches(old: Attrs, new: Attrs, n: nat) -> Seq<PatchView>
    decreases n,
{
    if n == 0 || n > old.len() {
        Seq::empty()
    } else {
        let rest = remove_patches(old, new, (n - 1) as nat);
        let key = old[n - 1].0;
        if has_key(new, key) {
            rest
        } else {
            rest.push(PatchView::RemoveAttr(key))
        }
    }
}

/// The attribute patches: what is set, then what is removed.
pub open spec fn attr_diff(old: Attrs, new: Attrs) -> Seq<PatchView> {
    set_patches(old, new, new.len()) + remove_patches(old, new, old.len())
}

/// `InsertChild` for each index from `from` up to `new.len()`, ascending.
pub open spec fn insert_patches(new: Seq<NodeView>, from: nat) -> Seq<PatchView> {
    Seq::new(
        (new.len() - from) as nat,
        |j: int| PatchView::InsertChild((from + j) as nat, new[from + j]),
    )
}

/// `RemoveChild` for each index from `to - 1` down to `from`, descending.
pub open spec fn remove_child_patches(from: nat, to: nat) -> Seq<PatchView> {
    Seq::new((to - from) as nat, |j: int| PatchView::RemoveChild((to - 1 - j) as nat))
}

/// For each of the first `n` pairs of children, in order, whose diff is not
/// empty: `UpdateChild` with that diff.
pub open spec fn update_patches(old: Seq<NodeView>, new: Seq<NodeView>, n: nat) -> Seq<PatchView>
    decreases old, n,
{
    if n == 0 || n > old.len() || n > new.len() {
        Seq::empty()
    } else {
        let rest = update_patches(old, new, (n - 1) as nat);
        let d = node_diff(old[n - 1], new[n - 1]);
        if d.len() == 0 {
            rest
        } else {
            rest.push(PatchView::UpdateChild((n - 1) as nat, d))
        }
    }
}

/// The child patches: updates over the common prefix, then the insertions
/// (ascending) or the removals (descending).
pub open spec fn child_diff(old: Seq<NodeView>, new: Seq<NodeView>) -> Seq<PatchView>
    decreases old, old.len() + 1,
{
    let common = if old.len() <= new.len() {
        old.len()
    } else {
        new.len()
    };
    update_patches(old, new, common) + (if new.len() > old.len() {
        insert_patches(new, old.len())
    } else {
        Seq::empty()
    }) + (if old.len() > new.len() {
        remove_child_patches(new.len(), old.len())
    } else {
        Seq::empty()
    })
}

/// The patches that turn `old` into `new`.
pub open spec fn node_diff(old: NodeView, new: NodeView) -> Seq<PatchView>
    decreases old, 0nat,
{
    match old {
        NodeView::Text(a) => match new {
            NodeView::Text(b) => if a == b {
                Seq::empty()
            } else {
                seq![PatchView::Replace(new)]
            },
            NodeView::Element { .. } => seq![PatchView::Replace(new)],
        },
        NodeView::Element { tag: tag_a, attrs: attrs_a, children: children_a } => match new {
            NodeView::Text(_) => seq![PatchView::Replace(new)],
            NodeView::Element { tag: tag_b, attrs: attrs_b, children: children_b } => if tag_a
                != tag_b {
                seq![PatchView::Replace(new)]
            } else {
                attr_diff(attrs_a, attrs_b) + child_diff(children_a, children_b)
            },
        },
    }
}

/// A copy of each patch of `patches`, in order.
pub fn clone_patches(patches: &Vec<Patch>) -> (r: Vec<Patch>)
    ensures
        patch_views(r@) == patch_views(patches@),
    decreases patches,
{
    let mut out: Vec<Patch> = Vec::new();
    let mut i: usize = 0;
    while i < patches.len()
        invariant
            i <= patches@.len(),
            out@.len() == i,
            forall|j: int| 0 <= j < i ==> (#[trigger] out@[j])@ == patches@[j]@,
        decreases patches@.len() - i,
    {
        out.push(patches[i].clone());
        i = i + 1;
    }
    assert(patch_views(out@) =~= patch_views(patches@));
    out
}

impl Clone for Patch {
    fn clone(&self) -> (r: Patch)
        ensures
            r@ == self@,
        decreases self,
    {
        match self {
            Patch::Replace(n) => Patch::Replace(n.clone()),
            Patch::SetAttr(k, v) => Patch::SetAttr(k.clone(), v.clone()),
            Patch::RemoveAttr(k) => Patch::RemoveAttr(k.clone()),
            Patch::UpdateChild(i, ps) => Patch::UpdateChild(*i, clone_patches(ps)),
            Patch::InsertChild(i, n) => Patch::InsertChild(*i, n.clone()),
            Patch::RemoveChild(i) => Patch::RemoveChild(*i),
        }
    }
}

/// The attribute patches between two attribute lists: `SetAttr` for each
/// attribute of `b` that `a` lacks or holds with another value, in the order
/// of `b`, then `RemoveAttr` for each key of `a` that `b` lacks, in the order
/// of `a`.
pub fn diff_props(a: &Props, b: &Props) -> (patches: Vec<Patch>)
    ensures
        patch_views(patches@) == attr_diff(a@, b@),
        attr_map(a@) == attr_map(b@) ==> patches@.len() == 0,
{
    let mut patches: Vec<Patch> = Vec::new();
    let mut i: usize = 0;
    let nb = b.len();
    while i < nb
        invariant
            i <= nb,
            nb == b@.len(),
            patch_views(patches@) == set_patches(a@, b@, i as nat),
        decreases nb - i,
    {
        let k = b.key_at(i);
        let v_new = b.value_at(i);
        let ghost before = patch_views(patches@);
        let same = match a.get(k.as_str()) {
            Some(v_old) => v_old.as_str().eq(v_new.as_str()),
            None => false,
        };
        if !same {
            patches.push(Patch::SetAttr(k.clone(), v_new.clone()));
            assert(patch_views(patches@) =~= before.push(PatchView::SetAttr(k@, v_new@)));
        }
        i = i + 1;
    }
    let ghost sets = patch_views(patches@);
    let na = a.len();
    let mut j: usize = 0;
    while j < na
        invariant
            j <= na,
            na == a@.len(),
            patch_views(patches@) == sets + remove_patches(a@, b@, j as nat),
        decreases na - j,
    {
        let k = a.key_at(j);
        let ghost before = patch_views(patches@);
        if !b.contains_key(k.as_str()) {
            patches.push(Patch::RemoveAttr(k.clone()));
            assert(patch_views(patches@) =~= before.push(PatchView::RemoveAttr(k@)));
            assert(before.push(PatchView::RemoveAttr(k@)) =~= sets + remove_patches(
                a@,
                b@,
                j as nat,
            ).push(PatchView::RemoveAttr(k@)));
        }
        j = j + 1;
    }
    proof {
        if attr_map(a@) == attr_map(b@) {
            lemma_set_patches_empty(a@, b@, b@.len());
            lemma_remove_patches_empty(a@, b@, a@.len());
            assert(patch_views(patches@).len() == 0);
        }
    }
    patches
}

/// The two lists are as long as each other, and their trees are pairwise
/// alike.
pub open spec fn all_alike(xs: Seq<NodeView>, ys: Seq<NodeView>) -> bool {
    xs.len() == ys.len() && forall|i: int| 0 <= i < xs.len() ==> alike(#[trigger] xs[i], ys[i])
}

/// The child patches between two child lists: `UpdateChild` for each pair of
/// the common prefix whose diff is not empty, then `InsertChild` for each
/// index that only `b` has, ascending, or `RemoveChild` for each index that
/// only `a` has, descending.
pub fn diff_children(a: &Vec<VNode>, b: &Vec<VNode>) -> (patches: Vec<Patch>)
    ensures
        patch_views(patches@) == child_diff(views(a@), views(b@)),
        all_alike(views(a@), views(b@)) ==> patches@.len() == 0,
    decreases a, 1nat,
{
    let mut patches: Vec<Patch> = Vec::new();
    let common = if a.len() <= b.len() {
        a.len()
    } else {
        b.len()
    };
    let ghost va = views(a@);
    let ghost vb = views(b@);
    let mut i: usize = 0;
    while i < common
        invariant
            i <= common,
            common <= a@.len(),
            common <= b@.len(),
            va == views(a@),
            vb == views(b@),
            patch_views(patches@) == update_patches(va, vb, i as nat),
            all_alike(va, vb) ==> patches@.len() == 0,
        decreases common - i,
    {
        let child_patches = diff(&a[i], &b[i]);
        let ghost before = patch_views(patches@);
        assert(va[i as int] == a@[i as int]@);
        assert(vb[i as int] == b@[i as int]@);
        if child_patches.len() > 0 {
            let ghost d = patch_views(child_patches@);
            patches.push(Patch::UpdateChild(i, child_patches));
            assert(patch_views(patches@) =~= before.push(PatchView::UpdateChild(i as nat, d)));
        }
        i = i + 1;
    }
    let ghost updates = patch_views(patches@);
    if b.len() > a.len() {
        let mut k: usize = a.len();
        while k < b.len()
            invariant
                a@.len() <= k <= b@.len(),
                vb == views(b@),
                patch_views(patches@) == updates + insert_patches(vb, a@.len() as nat).take(
                    k - a@.len(),
                ),
            decreases b@.len() - k,
        {
            let ghost before = patch_views(patches@);
            patches.push(Patch::InsertChild(k, b[k].clone()));
            assert(vb[k as int] == b@[k as int]@);
            assert(patch_views(patches@) =~= before.push(
                PatchView::InsertChild(k as nat, b@[k as int]@),
            ));
            assert(before.push(PatchView::InsertChild(k as nat, b@[k as int]@)) =~= updates
                + insert_patches(vb, a@.len() as nat).take(k + 1 - a@.len()));
            k = k + 1;
        }
        assert(insert_patches(vb, a@.len() as nat).take(b@.len() - a@.len()) =~= insert_patches(
            vb,
            a@.len() as nat,
        ));
        assert(patch_views(patches@) =~= child_diff(va, vb));
    } else if a.len() > b.len() {
        let mut k: usize = a.len();
        while k > b.len()
            invariant
                b@.len() <= k <= a@.len(),
                patch_views(patches@) == updates + remove_child_patches(
                    b@.len() as nat,
                    a@.len() as nat,
                ).take(a@.len() - k),
            decreases k,
        {
            let ghost before = patch_views(patches@);
            k = k - 1;
            patches.push(Patch::RemoveChild(k));
            assert(patch_views(patches@) =~= before.push(PatchView::RemoveChild(k as nat)));
            assert(before.push(PatchView::RemoveChild(k as nat)) =~= updates
                + remove_child_patches(b@.len() as nat, a@.len() as nat).take(a@.len() - k));
        }
        assert(remove_child_patches(b@.len() as nat, a@.len() as nat).take(a@.len() - b@.len())
            =~= remove_child_patches(b@.len() as nat, a@.len() as nat));
        assert(patch_views(patches@) =~= child_diff(va, vb));
    } else {
        assert(patch_views(patches@) =~= child_diff(va, vb));
    }
    patches
}

/// The patches that turn `old` into `new`: nothing for equal texts; one
/// `Replace` with `new` for unequal texts, for a text against an element and
/// for elements with different tags; for elements with the same tag the
/// attribute patches followed by the child patches. Trees that are alike,
/// such as a tree and its copy, need no patch.
pub fn diff(old: &VNode, new: &VNode) -> (patches: Vec<Patch>)
    ensures
        patch_views(patches@) == node_diff(old@, new@),
        alike(old@, new@) ==> patches@.len() == 0,
        old@ == new@ ==> patches@.len() == 0,
        kind_or_tag_differs(old@, new@) ==> patch_views(patches@) == seq![
            PatchView::Replace(new@),
        ],
    decreases old, 0nat,
{
    proof {
        alike_is_reflexive(old@);
    }
    match old {
        VNode::Text(a) => {
            match new {
                VNode::Text(b) => {
                    if a.as_str().eq(b.as_str()) {
                        let patches: Vec<Patch> = Vec::new();
                        assert(patch_views(patches@) =~= Seq::empty());
                        patches
                    } else {
                        replace_with(new)
                    }
                },
                VNode::Element { .. } => replace_with(new),
            }
        },
        VNode::Element { tag: tag_a, props: props_a, children: children_a } => {
            match new {
                VNode::Text(_) => replace_with(new),
                VNode::Element { tag: tag_b, props: props_b, children: children_b } => {
                    if !tag_a.as_str().eq(tag_b.as_str()) {
                        replace_with(new)
                    } else {
                        let mut patches = diff_props(props_a, props_b);
                        let ghost first = patch_views(patches@);
                        let mut rest = diff_children(children_a, children_b);
                        let ghost second = patch_views(rest@);
                        patches.append(&mut rest);
                        assert(patch_views(patches@) =~= first + second);
                        patches
                    }
                },
            }
        },
    }
}

/// The one-patch list that replaces a node by `new`.
fn replace_with(new: &VNode) -> (patches: Vec<Patch>)
    ensures
        patch_views(patches@) == seq![PatchView::Replace(new@)],
{
    let mut patches: Vec<Patch> = Vec::new();
    patches.push(Patch::Replace(new.clone()));
    assert(patch_views(patches@) =~= seq![PatchView::Replace(new@)]);
    patches
}

/// The two trees are equal but for the order of their attributes: texts with
/// the same string, or elements with the same tag, the same mapping from
/// attribute key to value, and children that are pairwise alike.
pub open spec fn alike(x: NodeView, y: NodeView) -> bool
    decreases x,
{
    match x {
        NodeView::Text(a) => y == NodeView::Text(a),
        NodeView::Element { tag, attrs, children } => match y {
            NodeView::Text(_) => false,
            NodeView::Element { tag: tag_y, attrs: attrs_y, children: children_y } => {
                &&& tag == tag_y
                &&& attr_map(attrs) == attr_map(attrs_y)
                &&& children.len() == children_y.len()
                &&& forall|i: int|
                    0 <= i < children.len() ==> alike(#[trigger] children[i], children_y[i])
            },
        },
    }
}

proof fn lemma_set_patches_empty(old: Attrs, new: Attrs, n: nat)
    requires
        unique_keys(old),
        unique_keys(new),
        attr_map(old) == attr_map(new),
        n <= new.len(),
    ensures
        set_patches(old, new, n) == Seq::<PatchView>::empty(),
    decreases n,
{
    if n > 0 {
        lemma_set_patches_empty(old, new, (n - 1) as nat);
        lemma_same_map(old, new);
        assert(lookup(old, new[n - 1].0) == Some(new[n - 1].1));
    }
}

proof fn lemma_remove_patches_empty(old: Attrs, new: Attrs, n: nat)
    requires
        unique_keys(old),
        unique_keys(new),
        attr_map(old) == attr_map(new),
        n <= old.len(),
    ensures
        remove_patches(old, new, n) == Seq::<PatchView>::empty(),
    decreases n,
{
    if n > 0 {
        lemma_remove_patches_empty(old, new, (n - 1) as nat);
        lemma_same_map(old, new);
        assert(lookup(new, old[n - 1].0) == Some(old[n - 1].1));
    }
}

proof fn lemma_update_patches_empty(old: Seq<NodeView>, new: Seq<NodeView>, n: nat)
    requires
        old.len() == new.len(),
        n <= old.len(),
        forall|i: int| 0 <= i < old.len() ==> well_formed(#[trigger] old[i]),
        forall|i: int| 0 <= i < new.len() ==> well_formed(#[trigger] new[i]),
        forall|i: int| 0 <= i < old.len() ==> alike(#[trigger] old[i], new[i]),
    ensures
        update_patches(old, new, n) == Seq::<PatchView>::empty(),
    decreases old, n,
{
    if n > 0 {
        lemma_update_patches_empty(old, new, (n - 1) as nat);
        diff_of_alike_is_empty(old[n - 1], new[n - 1]);
    }
}

/// Diffing a tree against one that is equal to it, whatever the order of the
/// attributes in either, gives no patch.
pub proof fn diff_of_alike_is_empty(x: NodeView, y: NodeView)
    requires
        well_formed(x),
        well_formed(y),
        alike(x, y),
    ensures
        node_diff(x, y) == Seq::<PatchView>::empty(),
    decreases x, 0nat,
{
    match x {
        NodeView::Text(_) => {},
        NodeView::Element { tag, attrs, children } => {
            match y {
                NodeView::Text(_) => {},
                NodeView::Element { tag: tag_y, attrs: attrs_y, children: children_y } => {
                    lemma_set_patches_empty(attrs, attrs_y, attrs_y.len());
                    lemma_remove_patches_empty(attrs, attrs_y, attrs.len());
                    lemma_update_patches_empty(children, children_y, children.len());
                    assert(attr_diff(attrs, attrs_y) =~= Seq::<PatchView>::empty());
                    assert(child_diff(children, children_y) =~= Seq::<PatchView>::empty());
                    assert(node_diff(x, y) =~= Seq::<PatchView>::empty());
                },
            }
        },
    }
}

/// Every tree is alike to itself.
pub proof fn alike_is_reflexive(x: NodeView)
    ensures
        alike(x, x),
    decreases x,
{
    match x {
        NodeView::Text(_) => {},
        NodeView::Element { tag, attrs, children } => {
            assert forall|i: int| 0 <= i < children.len() implies alike(
                #[trigger] children[i],
                children[i],
            ) by {
                alike_is_reflexive(children[i]);
            }
        },
    }
}

/// Diffing a tree against itself, or against a copy of it, gives no patch.
pub proof fn diff_of_equal_is_empty(x: NodeView)
    requires
        well_formed(x),
    ensures
        node_diff(x, x) == Seq::<PatchView>::empty(),
{
    alike_is_reflexive(x);
    diff_of_alike_is_empty(x, x);
}

/// The two trees are of different kinds (a text and an element), or elements
/// with different tags.
pub open spec fn kind_or_tag_differs(old: NodeView, new: NodeView) -> bool {
    match old {
        NodeView::Text(_) => new is Element,
        NodeView::Element { tag, .. } => match new {
            NodeView::Text(_) => true,
            NodeView::Element { tag: tag_new, .. } => tag != tag_new,
        },
    }
}

/// Where the two trees differ in kind or in tag, the diff is exactly one
/// `Replace` that carries the new tree.
pub proof fn replace_on_kind_or_tag_change(old: NodeView, new: NodeView)
    requires
        kind_or_tag_differs(old, new),
    ensures
        node_diff(old, new) == seq![PatchView::Replace(new)],
{
}

/// The contents of the attribute patches, whatever their order: a patch is
/// among them exactly if it is a `SetAttr` of a key of `new` with its value
/// there, where `old` lacks the key or holds another value, or a `RemoveAttr`
/// of a key of `old` that `new` lacks; and none occurs twice.
pub proof fn attr_diff_contents(old: Attrs, new: Attrs)
    requires
        unique_keys(old),
        unique_keys(new),
    ensures
        attr_diff(old, new).no_duplicates(),
        forall|p: PatchView| #[trigger]
            attr_diff(old, new).contains(p) <==> match p {
                PatchView::SetAttr(k, v) => lookup(new, k) == Some(v) && lookup(old, k) != Some(v),
                PatchView::RemoveAttr(k) => has_key(old, k) && !has_key(new, k),
                _ => false,
            },
{
    let sets = set_patches(old, new, new.len());
    let removes = remove_patches(old, new, old.len());
    lemma_set_patches(old, new, new.len());
    lemma_remove_patches(old, new, old.len());
    let all = attr_diff(old, new);
    assert forall|i: int, j: int| 0 <= i < all.len() && 0 <= j < all.len() && i != j implies all[i]
        != all[j] by {
        if i < sets.len() && j < sets.len() {
            assert(sets[i] != sets[j]);
        } else if i >= sets.len() && j >= sets.len() {
            assert(removes[i - sets.len()] != removes[j - sets.len()]);
        } else if i < sets.len() {
            assert(sets.contains(sets[i]));
            assert(removes.contains(removes[j - sets.len()]));
        } else {
            assert(sets.contains(sets[j]));
            assert(removes.contains(removes[i - sets.len()]));
        }
    }
    assert forall|p: PatchView| #[trigger]
        all.contains(p) <==> match p {
            PatchView::SetAttr(k, v) => lookup(new, k) == Some(v) && lookup(old, k) != Some(v),
            PatchView::RemoveAttr(k) => has_key(old, k) && !has_key(new, k),
            _ => false,
        } by {
        if all.contains(p) {
            let i = choose|i: int| 0 <= i < all.len() && all[i] == p;
            if i < sets.len() {
                assert(sets[i] == p);
                assert(sets.contains(p));
            } else {
                assert(removes[i - sets.len()] == p);
                assert(removes.contains(p));
            }
        }
        if sets.contains(p) {
            let i = choose|i: int| 0 <= i < sets.len() && sets[i] == p;
            assert(all[i] == p);
        }
        if removes.contains(p) {
            let i = choose|i: int| 0 <= i < removes.len() && removes[i] == p;
            assert(all[sets.len() + i] == p);
        }
        match p {
            PatchView::SetAttr(k, v) => {
                if lookup(new, k) == Some(v) && lookup(old, k) != Some(v) {
                    let i = key_index(new, k);
                    lemma_lookup_at(new, i);
                    assert(set_from(old, new, new.len(), p));
                }
                if sets.contains(p) {
                    let i = choose|i: int|
                        0 <= i < new.len() && p == PatchView::SetAttr(
                            (#[trigger] new[i]).0,
                            new[i].1,
                        ) && lookup(old, new[i].0) != Some(new[i].1);
                    lemma_lookup_at(new, i);
                }
            },
            PatchView::RemoveAttr(k) => {
                if has_key(old, k) && !has_key(new, k) {
                    let i = key_index(old, k);
                    assert(removed_from(old, new, old.len(), p));
                }
            },
            _ => {},
        }
    }
}

/// `p` sets one of the first `n` attributes of `new`, which `old` lacks or
/// holds with another value.
pub open spec fn set_from(old: Attrs, new: Attrs, n: nat, p: PatchView) -> bool {
    exists|i: int|
        0 <= i < n && i < new.len() && p == PatchView::SetAttr((#[trigger] new[i]).0, new[i].1)
            && lookup(old, new[i].0) != Some(new[i].1)
}

/// `p` removes the key of one of the first `n` attributes of `old`, which
/// `new` lacks.
pub open spec fn removed_from(old: Attrs, new: Attrs, n: nat, p: PatchView) -> bool {
    exists|i: int|
        0 <= i < n && i < old.len() && p == PatchView::RemoveAttr((#[trigger] old[i]).0)
            && !has_key(new, old[i].0)
}

proof fn lemma_set_patches(old: Attrs, new: Attrs, n: nat)
    requires
        unique_keys(new),
        n <= new.len(),
    ensures
        set_patches(old, new, n).no_duplicates(),
        forall|p: PatchView| #[trigger]
            set_patches(old, new, n).contains(p) <==> set_from(old, new, n, p),
    decreases n,
{
    let out = set_patches(old, new, n);
    if n == 0 {
        assert forall|p: PatchView| #[trigger] out.contains(p) <==> set_from(old, new, n, p) by {}
    } else {
        let m = (n - 1) as nat;
        lemma_set_patches(old, new, m);
        let rest = set_patches(old, new, m);
        let e = new[n - 1];
        let q = PatchView::SetAttr(e.0, e.1);
        if lookup(old, e.0) == Some(e.1) {
            assert forall|p: PatchView| #[trigger] out.contains(p) <==> set_from(old, new, n, p) by {
                if set_from(old, new, n, p) {
                    let i = choose|i: int|
                        0 <= i < n && i < new.len() && p == PatchView::SetAttr(
                            (#[trigger] new[i]).0,
                            new[i].1,
                        ) && lookup(old, new[i].0) != Some(new[i].1);
                    assert(i < m);
                    assert(set_from(old, new, m, p));
                }
                if set_from(old, new, m, p) {
                    let i = choose|i: int|
                        0 <= i < m && i < new.len() && p == PatchView::SetAttr(
                            (#[trigger] new[i]).0,
                            new[i].1,
                        ) && lookup(old, new[i].0) != Some(new[i].1);
                    assert(set_from(old, new, n, p));
                }
            }
        } else {
            assert(out == rest.push(q));
            if rest.contains(q) {
                let i = choose|i: int|
                    0 <= i < m && i < new.len() && q == PatchView::SetAttr(
                        (#[trigger] new[i]).0,
                        new[i].1,
                    ) && lookup(old, new[i].0) != Some(new[i].1);
                assert(new[i].0 != new[n - 1].0);
            }
            assert forall|i: int, j: int| 0 <= i < out.len() && 0 <= j < out.len() && i
                != j implies out[i] != out[j] by {
                if i < rest.len() && j < rest.len() {
                    assert(rest[i] != rest[j]);
                } else if i < rest.len() {
                    assert(rest.contains(rest[i]));
                } else {
                    assert(rest.contains(rest[j]));
                }
            }
            assert forall|p: PatchView| #[trigger] out.contains(p) <==> set_from(old, new, n, p) by {
                if out.contains(p) {
                    let i = choose|i: int| 0 <= i < out.len() && out[i] == p;
                    if i < rest.len() {
                        assert(rest[i] == p);
                        assert(rest.contains(p));
                        let w = choose|w: int|
                            0 <= w < m && w < new.len() && p == PatchView::SetAttr(
                                (#[trigger] new[w]).0,
                                new[w].1,
                            ) && lookup(old, new[w].0) != Some(new[w].1);
                        assert(set_from(old, new, n, p));
                    } else {
                        assert(p == q);
                        assert(new[n - 1] == e);
                        assert(set_from(old, new, n, p));
                    }
                }
                if set_from(old, new, n, p) {
                    let i = choose|i: int|
                        0 <= i < n && i < new.len() && p == PatchView::SetAttr(
                            (#[trigger] new[i]).0,
                            new[i].1,
                        ) && lookup(old, new[i].0) != Some(new[i].1);
                    if i < m {
                        assert(set_from(old, new, m, p));
                        assert(rest.contains(p));
                        let w = choose|w: int| 0 <= w < rest.len() && rest[w] == p;
                        assert(out[w] == p);
                    } else {
                        assert(out[rest.len() as int] == p);
                    }
                }
            }
        }
    }
}

proof fn lemma_remove_patches(old: Attrs, new: Attrs, n: nat)
    requires
        unique_keys(old),
        n <= old.len(),
    ensures
        remove_patches(old, new, n).no_duplicates(),
        forall|p: PatchView| #[trigger]
            remove_patches(old, new, n).contains(p) <==> removed_from(old, new, n, p),
    decreases n,
{
    let out = remove_patches(old, new, n);
    if n == 0 {
        assert forall|p: PatchView| #[trigger]
            out.contains(p) <==> removed_from(old, new, n, p) by {}
    } else {
        let m = (n - 1) as nat;
        lemma_remove_patches(old, new, m);
        let rest = remove_patches(old, new, m);
        let key = old[n - 1].0;
        let q = PatchView::RemoveAttr(key);
        if has_key(new, key) {
            assert forall|p: PatchView| #[trigger]
                out.contains(p) <==> removed_from(old, new, n, p) by {
                if removed_from(old, new, n, p) {
                    let i = choose|i: int|
                        0 <= i < n && i < old.len() && p == PatchView::RemoveAttr(
                            (#[trigger] old[i]).0,
                        ) && !has_key(new, old[i].0);
                    assert(i < m);
                    assert(removed_from(old, new, m, p));
                }
                if removed_from(old, new, m, p) {
                    let i = choose|i: int|
                        0 <= i < m && i < old.len() && p == PatchView::RemoveAttr(
                            (#[trigger] old[i]).0,
                        ) && !has_key(new, old[i].0);
                    assert(removed_from(old, new, n, p));
                }
            }
        } else {
            assert(out == rest.push(q));
            if rest.contains(q) {
                let i = choose|i: int|
                    0 <= i < m && i < old.len() && q == PatchView::RemoveAttr(
                        (#[trigger] old[i]).0,
                    ) && !has_key(new, old[i].0);
                assert(old[i].0 != old[n - 1].0);
            }
            assert forall|i: int, j: int| 0 <= i < out.len() && 0 <= j < out.len() && i
                != j implies out[i] != out[j] by {
                if i < rest.len() && j < rest.len() {
                    assert(rest[i] != rest[j]);
                } else if i < rest.len() {
                    assert(rest.contains(rest[i]));
                } else {
                    assert(rest.contains(rest[j]));
                }
            }
            assert forall|p: PatchView| #[trigger]
                out.contains(p) <==> removed_from(old, new, n, p) by {
                if out.contains(p) {
                    let i = choose|i: int| 0 <= i < out.len() && out[i] == p;
                    if i < rest.len() {
                        assert(rest[i] == p);
                        assert(rest.contains(p));
                        let w = choose|w: int|
                            0 <= w < m && w < old.len() && p == PatchView::RemoveAttr(
                                (#[trigger] old[w]).0,
                            ) && !has_key(new, old[w].0);
                        assert(removed_from(old, new, n, p));
                    } else {
                        assert(p == q);
                        assert(old[n - 1].0 == key);
                        assert(removed_from(old, new, n, p));
                    }
                }
                if removed_from(old, new, n, p) {
                    let i = choose|i: int|
                        0 <= i < n && i < old.len() && p == PatchView::RemoveAttr(
                            (#[trigger] old[i]).0,
                        ) && !has_key(new, old[i].0);
                    if i < m {
                        assert(removed_from(old, new, m, p));
                        assert(rest.contains(p));
                        let w = choose|w: int| 0 <= w < rest.len() && rest[w] == p;
                        assert(out[w] == p);
                    } else {
                        assert(out[rest.len() as int] == p);
                    }
                }
            }
        }
    }
}

/// After the updates of the common prefix, a longer new list gives exactly one
/// `InsertChild` for each index that only it has, with the node at that index,
/// in ascending order; a longer old list gives exactly one `RemoveChild` for
/// each index that only it has, in descending order; equal lengths give
/// neither.
pub proof fn child_count_delta_ordering(old: Seq<NodeView>, new: Seq<NodeView>)
    ensures
        ({
            let common = if old.len() <= new.len() {
                old.len()
            } else {
                new.len()
            };
            let updates = update_patches(old, new, common);
            let d = child_diff(old, new);
            &&& d.subrange(0, updates.len() as int) == updates
            &&& new.len() >= old.len() ==> {
                &&& d.len() == updates.len() + (new.len() - old.len())
                &&& forall|j: int|
                    0 <= j < new.len() - old.len() ==> #[trigger] d[updates.len() + j]
                        == PatchView::InsertChild((old.len() + j) as nat, new[old.len() + j])
            }
            &&& old.len() >= new.len() ==> {
                &&& d.len() == updates.len() + (old.len() - new.len())
                &&& forall|j: int|
                    0 <= j < old.len() - new.len() ==> #[trigger] d[updates.len() + j]
                        == PatchView::RemoveChild((old.len() - 1 - j) as nat)
            }
        }),
{
    let common = if old.len() <= new.len() {
        old.len()
    } else {
        new.len()
    };
    let updates = update_patches(old, new, common);
    let d = child_diff(old, new);
    assert(d.subrange(0, updates.len() as int) =~= updates);
}

} // verus!
