//! Tree snapshots: elements with a tag, attributes and children, and text leaves.

use vstd::prelude::*;
use vstd::std_specs::cmp::PartialEqSpecImpl;
use vstd::std_specs::convert::FromSpecImpl;

verus! {

/// Trusted, not proved: `<str as PartialEq>::eq` of the standard library,
/// which is what `==` on two string slices calls. It answers `true` exactly
/// when the two slices hold the same characters in the same order.
pub assume_specification[ <str as PartialEq>::eq ](a: &str, b: &str) -> (r: bool)
    ensures
        r == (a@ == b@),
;

/// An attribute list as the contracts see it: keys with their values, in the
/// order in which the keys were first set.
pub type Attrs = Seq<(Seq<char>, Seq<char>)>;

/// Some entry of `attrs` has the key `key`.
pub open spec fn has_key(attrs: Attrs, key: Seq<char>) -> bool {
    exists|i: int| 0 <= i < attrs.len() && (#[trigger] attrs[i]).0 == key
}

/// No key occurs twice in `attrs`.
pub open spec fn unique_keys(attrs: Attrs) -> bool {
    forall|i: int, j: int|
        0 <= i < j < attrs.len() ==> (#[trigger] attrs[i]).0 != (#[trigger] attrs[j]).0
}

/// The position of an entry with the key `key`; meaningful where `has_key` holds.
pub open spec fn key_index(attrs: Attrs, key: Seq<char>) -> int {
    choose|i: int| 0 <= i < attrs.len() && (#[trigger] attrs[i]).0 == key
}

/// The value stored under `key`, if any.
pub open spec fn lookup(attrs: Attrs, key: Seq<char>) -> Option<Seq<char>> {
    if has_key(attrs, key) {
        Some(attrs[key_index(attrs, key)].1)
    } else {
        None
    }
}

/// `attrs` after `key` has been set to `value`: the entry is overwritten in
/// place if the key is present, appended otherwise.
pub open spec fn with_attr(attrs: Attrs, key: Seq<char>, value: Seq<char>) -> Attrs {
    if has_key(attrs, key) {
        attrs.update(key_index(attrs, key), (key, value))
    } else {
        attrs.push((key, value))
    }
}

/// The attribute list as a mapping from key to value, which forgets the order.
pub open spec fn attr_map(attrs: Attrs) -> Map<Seq<char>, Seq<char>> {
    Map::new(|k: Seq<char>| has_key(attrs, k), |k: Seq<char>| attrs[key_index(attrs, k)].1)
}

/// In a list without repeated keys, the entry at `i` is the one `lookup` finds.
pub proof fn lemma_lookup_at(attrs: Attrs, i: int)
    requires
        unique_keys(attrs),
        0 <= i < attrs.len(),
    ensures
        has_key(attrs, attrs[i].0),
        key_index(attrs, attrs[i].0) == i,
        lookup(attrs, attrs[i].0) == Some(attrs[i].1),
{
    let k = attrs[i].0;
    let j = key_index(attrs, k);
    assert(0 <= j < attrs.len() && attrs[j].0 == k);
    if j < i {
        assert(attrs[j].0 != attrs[i].0);
    } else if i < j {
        assert(attrs[i].0 != attrs[j].0);
    }
}

/// Setting a key keeps the keys distinct, stores the value under that key and
/// leaves every other key as it was.
pub proof fn lemma_with_attr(attrs: Attrs, key: Seq<char>, value: Seq<char>)
    requires
        unique_keys(attrs),
    ensures
        unique_keys(with_attr(attrs, key, value)),
        lookup(with_attr(attrs, key, value), key) == Some(value),
        forall|k: Seq<char>| k != key ==> lookup(with_attr(attrs, key, value), k) == lookup(attrs, k),
{
    let out = with_attr(attrs, key, value);
    if has_key(attrs, key) {
        let p = key_index(attrs, key);
        assert(out.len() == attrs.len());
        assert forall|i: int| 0 <= i < out.len() implies (#[trigger] out[i]).0 == attrs[i].0 by {}
        assert(unique_keys(out)) by {
            assert forall|i: int, j: int| 0 <= i < j < out.len() implies (#[trigger] out[i]).0 != (
            #[trigger] out[j]).0 by {
                assert(attrs[i].0 != attrs[j].0);
            }
        }
        assert(out[p].0 == key);
        lemma_lookup_at(out, p);
        assert forall|k: Seq<char>| k != key implies lookup(out, k) == lookup(attrs, k) by {
            if has_key(attrs, k) {
                let q = key_index(attrs, k);
                assert(out[q] == attrs[q]);
                lemma_lookup_at(out, q);
                lemma_lookup_at(attrs, q);
            } else {
                if has_key(out, k) {
                    let q = key_index(out, k);
                    assert(attrs[q].0 == k);
                }
            }
        }
    } else {
        let n = attrs.len() as int;
        assert(out.len() == n + 1);
        assert forall|i: int| 0 <= i < n implies (#[trigger] out[i]) == attrs[i] by {}
        assert(out[n] == (key, value));
        assert(unique_keys(out)) by {
            assert forall|i: int, j: int| 0 <= i < j < out.len() implies (#[trigger] out[i]).0 != (
            #[trigger] out[j]).0 by {
                if j < n {
                    assert(attrs[i].0 != attrs[j].0);
                } else {
                    assert(attrs[i].0 != key);
                }
            }
        }
        lemma_lookup_at(out, n);
        assert forall|k: Seq<char>| k != key implies lookup(out, k) == lookup(attrs, k) by {
            if has_key(attrs, k) {
                let q = key_index(attrs, k);
                assert(out[q] == attrs[q]);
                lemma_lookup_at(out, q);
                lemma_lookup_at(attrs, q);
            } else {
                if has_key(out, k) {
                    let q = key_index(out, k);
                    assert(q < n);
                    assert(attrs[q].0 == k);
                }
            }
        }
    }
}

/// The attributes of an element: string keys with string values, each key at
/// most once.
#[derive(Debug)]
pub struct Props {
    entries: Vec<(String, String)>,
}

impl View for Props {
    type V = Attrs;

    closed spec fn view(&self) -> Attrs {
        Seq::new(self.entries@.len(), |i: int| (self.entries@[i].0@, self.entries@[i].1@))
    }
}

impl Props {
    #[verifier::type_invariant]
    spec fn keys_distinct(&self) -> bool {
        unique_keys(self@)
    }

    /// The empty attribute list.
    pub fn new() -> (p: Props)
        ensures
            p@ == Seq::<(Seq<char>, Seq<char>)>::empty(),
    {
        let p = Props { entries: Vec::new() };
        assert(p@ =~= Seq::<(Seq<char>, Seq<char>)>::empty());
        p
    }

    /// No key occurs twice in an attribute list: the call does nothing, and
    /// tells its caller so.
    pub fn keys_are_distinct(&self)
        ensures
            unique_keys(self@),
    {
        proof {
            use_type_invariant(self);
        }
    }

    /// The number of attributes.
    pub fn len(&self) -> (n: usize)
        ensures
            n == self@.len(),
            unique_keys(self@),
    {
        proof {
            use_type_invariant(self);
        }
        self.entries.len()
    }

    /// The key of the attribute at position `i`.
    pub fn key_at(&self, i: usize) -> (k: &String)
        requires
            i < self@.len(),
        ensures
            k@ == self@[i as int].0,
    {
        &self.entries[i].0
    }

    /// The value of the attribute at position `i`.
    pub fn value_at(&self, i: usize) -> (v: &String)
        requires
            i < self@.len(),
        ensures
            v@ == self@[i as int].1,
    {
        &self.entries[i].1
    }

    /// The position of `key`, or `len()` if it is absent.
    fn position(&self, key: &str) -> (p: usize)
        ensures
            p <= self@.len(),
            unique_keys(self@),
            p < self@.len() ==> self@[p as int].0 == key@ && has_key(self@, key@) && key_index(
                self@,
                key@,
            ) == p,
            p == self@.len() ==> !has_key(self@, key@),
    {
        proof {
            use_type_invariant(self);
        }
        let mut i: usize = 0;
        while i < self.entries.len()
            invariant
                i <= self.entries@.len(),
                self@.len() == self.entries@.len(),
                unique_keys(self@),
                forall|j: int| 0 <= j < i ==> (#[trigger] self@[j]).0 != key@,
            decreases self.entries@.len() - i,
        {
            assert(self@[i as int].0 == self.entries@[i as int].0@);
            if self.entries[i].0.as_str().eq(key) {
                proof {
                    lemma_lookup_at(self@, i as int);
                }
                return i;
            }
            i = i + 1;
        }
        i
    }

    /// The value stored under `key`, if any.
    pub fn get(&self, key: &str) -> (r: Option<&String>)
        ensures
            unique_keys(self@),
            match r {
                Some(v) => lookup(self@, key@) == Some(v@),
                None => lookup(self@, key@).is_none(),
            },
    {
        let p = self.position(key);
        if p < self.entries.len() {
            Some(&self.entries[p].1)
        } else {
            None
        }
    }

    /// Whether `key` has a value.
    pub fn contains_key(&self, key: &str) -> (b: bool)
        ensures
            b == has_key(self@, key@),
    {
        let p = self.position(key);
        p < self.entries.len()
    }

    /// Sets `k` to `v`, overwriting the value of a key that is present, and
    /// hands the list back.
    pub fn set(self, k: &str, v: &str) -> (p: Props)
        ensures
            p@ == with_attr(self@, k@, v@),
    {
        let pos = self.position(k);
        let mut entries = self.entries;
        let ghost before = self@;
        if pos < entries.len() {
            entries[pos] = (k.to_owned(), v.to_owned());
        } else {
            entries.push((k.to_owned(), v.to_owned()));
        }
        let ghost after = Seq::new(entries@.len(), |i: int| (entries@[i].0@, entries@[i].1@));
        proof {
            assert(after =~= with_attr(before, k@, v@));
            lemma_with_attr(before, k@, v@);
        }
        Props { entries }
    }
}

impl Props {
    /// Whether every attribute of `self` has the same value in `other`.
    fn included_in(&self, other: &Props) -> (r: bool)
        ensures
            r == (forall|i: int|
                0 <= i < self@.len() ==> lookup(other@, (#[trigger] self@[i]).0) == Some(self@[i].1)),
    {
        let mut i: usize = 0;
        while i < self.entries.len()
            invariant
                i <= self.entries@.len(),
                self@.len() == self.entries@.len(),
                forall|j: int|
                    0 <= j < i ==> lookup(other@, (#[trigger] self@[j]).0) == Some(self@[j].1),
            decreases self.entries@.len() - i,
        {
            assert(self@[i as int] == (self.entries@[i as int].0@, self.entries@[i as int].1@));
            match other.get(self.entries[i].0.as_str()) {
                Some(v) => {
                    if !v.as_str().eq(self.entries[i].1.as_str()) {
                        return false;
                    }
                },
                None => {
                    return false;
                },
            }
            i = i + 1;
        }
        true
    }
}

impl Clone for Props {
    fn clone(&self) -> (r: Props)
        ensures
            r@ == self@,
    {
        proof {
            use_type_invariant(self);
        }
        let mut entries: Vec<(String, String)> = Vec::new();
        let mut i: usize = 0;
        while i < self.entries.len()
            invariant
                i <= self.entries@.len(),
                entries@.len() == i,
                forall|j: int|
                    0 <= j < i ==> (#[trigger] entries@[j]).0@ == self.entries@[j].0@ && entries@[j].1@
                        == self.entries@[j].1@,
            decreases self.entries@.len() - i,
        {
            entries.push((self.entries[i].0.clone(), self.entries[i].1.clone()));
            i = i + 1;
        }
        let ghost copy = Seq::new(entries@.len(), |i: int| (entries@[i].0@, entries@[i].1@));
        assert(copy =~= self@);
        Props { entries }
    }
}

impl PartialEq for Props {
    /// Two attribute lists are equal when they map the same keys to the same
    /// values, in whatever order.
    fn eq(&self, other: &Props) -> (r: bool) {
        let forth = self.included_in(other);
        let back = other.included_in(self);
        proof {
            use_type_invariant(self);
            use_type_invariant(other);
            lemma_same_map(self@, other@);
        }
        forth && back
    }
}

impl PartialEqSpecImpl for Props {
    open spec fn obeys_eq_spec() -> bool {
        true
    }

    open spec fn eq_spec(&self, other: &Props) -> bool {
        attr_map(self@) == attr_map(other@)
    }
}

/// Two lists without repeated keys give the same mapping exactly when each
/// holds every entry of the other.
pub proof fn lemma_same_map(a: Attrs, b: Attrs)
    requires
        unique_keys(a),
        unique_keys(b),
    ensures
        (attr_map(a) == attr_map(b)) <==> ((forall|i: int|
            0 <= i < a.len() ==> lookup(b, (#[trigger] a[i]).0) == Some(a[i].1)) && (forall|i: int|
            0 <= i < b.len() ==> lookup(a, (#[trigger] b[i]).0) == Some(b[i].1))),
{
    let forth = forall|i: int| 0 <= i < a.len() ==> lookup(b, (#[trigger] a[i]).0) == Some(a[i].1);
    let back = forall|i: int| 0 <= i < b.len() ==> lookup(a, (#[trigger] b[i]).0) == Some(b[i].1);
    if forth && back {
        assert forall|k: Seq<char>| has_key(a, k) <==> has_key(b, k) by {
            if has_key(a, k) {
                let i = key_index(a, k);
                assert(lookup(b, a[i].0) == Some(a[i].1));
            }
            if has_key(b, k) {
                let i = key_index(b, k);
                assert(lookup(a, b[i].0) == Some(b[i].1));
            }
        }
        assert forall|k: Seq<char>| has_key(a, k) implies a[key_index(a, k)].1 == b[key_index(
            b,
            k,
        )].1 by {
            let i = key_index(a, k);
            assert(lookup(b, a[i].0) == Some(a[i].1));
        }
        assert(attr_map(a) =~= attr_map(b));
    }
    if attr_map(a) == attr_map(b) {
        assert forall|i: int| 0 <= i < a.len() implies lookup(b, (#[trigger] a[i]).0) == Some(
            a[i].1,
        ) by {
            lemma_lookup_at(a, i);
            assert(attr_map(a).dom().contains(a[i].0));
            assert(attr_map(b).dom().contains(a[i].0));
            assert(attr_map(a)[a[i].0] == attr_map(b)[a[i].0]);
        }
        assert forall|i: int| 0 <= i < b.len() implies lookup(a, (#[trigger] b[i]).0) == Some(
            b[i].1,
        ) by {
            lemma_lookup_at(b, i);
            assert(attr_map(b).dom().contains(b[i].0));
            assert(attr_map(a).dom().contains(b[i].0));
            assert(attr_map(a)[b[i].0] == attr_map(b)[b[i].0]);
        }
    }
}

/// The list that setting the pairs of `pairs`, from position `from` on and in
/// order, makes of `attrs`.
pub open spec fn with_attrs(attrs: Attrs, pairs: Seq<(&str, &str)>, from: int) -> Attrs
    decreases pairs.len() - from,
{
    if 0 <= from < pairs.len() {
        with_attrs(with_attr(attrs, pairs[from].0@, pairs[from].1@), pairs, from + 1)
    } else {
        attrs
    }
}

impl From<()> for Props {
    /// The empty attribute list.
    fn from(v: ()) -> (p: Props)
        ensures
            p@ == Seq::<(Seq<char>, Seq<char>)>::empty(),
    {
        Props::new()
    }
}

impl FromSpecImpl<()> for Props {
    open spec fn obeys_from_spec() -> bool {
        false
    }

    open spec fn from_spec(v: ()) -> Props {
        arbitrary()
    }
}

impl<'a> From<Vec<(&'a str, &'a str)>> for Props {
    /// The attributes that setting each pair in turn gives.
    fn from(v: Vec<(&'a str, &'a str)>) -> (p: Props)
        ensures
            p@ == with_attrs(Seq::empty(), v@, 0),
    {
        Props::from_pairs(&v)
    }
}

impl<'a> FromSpecImpl<Vec<(&'a str, &'a str)>> for Props {
    open spec fn obeys_from_spec() -> bool {
        false
    }

    open spec fn from_spec(v: Vec<(&'a str, &'a str)>) -> Props {
        arbitrary()
    }
}

impl Props {
    /// The attributes that setting each pair of `pairs` in turn gives, a later
    /// pair overwriting an earlier one with the same key.
    pub fn from_pairs(pairs: &Vec<(&str, &str)>) -> (p: Props)
        ensures
            p@ == with_attrs(Seq::empty(), pairs@, 0),
    {
        let mut p = Props::new();
        let mut i: usize = 0;
        while i < pairs.len()
            invariant
                i <= pairs@.len(),
                with_attrs(p@, pairs@, i as int) == with_attrs(Seq::empty(), pairs@, 0),
            decreases pairs@.len() - i,
        {
            p = p.set(pairs[i].0, pairs[i].1);
            i = i + 1;
        }
        p
    }
}

/// A tree snapshot as the contracts see it.
pub enum NodeView {
    Element { tag: Seq<char>, attrs: Attrs, children: Seq<NodeView> },
    Text(Seq<char>),
}

/// A tree snapshot: an element with a tag, attributes and children, or a text
/// leaf.
#[derive(Debug, PartialEq)]
pub enum VNode {
    Element { tag: String, props: Props, children: Vec<VNode> },
    Text(String),
}

/// The views of the nodes of `nodes`, in order.
pub open spec fn views(nodes: Seq<VNode>) -> Seq<NodeView>
    decreases nodes,
{
    Seq::new(
        nodes.len(),
        |i: int|
            if 0 <= i < nodes.len() {
                nodes[i].view()
            } else {
                NodeView::Text(Seq::empty())
            },
    )
}

impl View for VNode {
    type V = NodeView;

    open spec fn view(&self) -> NodeView
        decreases self,
    {
        match self {
            VNode::Element { tag, props, children } => NodeView::Element {
                tag: tag@,
                attrs: props@,
                children: views(children@),
            },
            VNode::Text(t) => NodeView::Text(t@),
        }
    }
}

/// A copy of each node of `nodes`, in order.
pub fn clone_nodes(nodes: &Vec<VNode>) -> (r: Vec<VNode>)
    ensures
        views(r@) == views(nodes@),
    decreases nodes,
{
    let mut out: Vec<VNode> = Vec::new();
    let mut i: usize = 0;
    while i < nodes.len()
        invariant
            i <= nodes@.len(),
            out@.len() == i,
            forall|j: int| 0 <= j < i ==> (#[trigger] out@[j])@ == nodes@[j]@,
        decreases nodes@.len() - i,
    {
        out.push(nodes[i].clone());
        i = i + 1;
    }
    assert(views(out@) =~= views(nodes@));
    out
}

impl Clone for VNode {
    fn clone(&self) -> (r: VNode)
        ensures
            r@ == self@,
        decreases self,
    {
        match self {
            VNode::Element { tag, props, children } => VNode::Element {
                tag: tag.clone(),
                props: props.clone(),
                children: clone_nodes(children),
            },
            VNode::Text(t) => VNode::Text(t.clone()),
        }
    }
}

/// No element of the tree holds an attribute key twice. Every tree that a
/// program holds is such a tree, since its attribute lists are `Props`.
pub open spec fn well_formed(node: NodeView) -> bool
    decreases node,
{
    match node {
        NodeView::Text(_) => true,
        NodeView::Element { tag, attrs, children } => unique_keys(attrs) && forall|i: int|
            0 <= i < children.len() ==> well_formed(#[trigger] children[i]),
    }
}

/// An element with the given tag, attributes and children. It is well
/// formed if the children are.
pub fn h(tag: &str, props: Props, children: Vec<VNode>) -> (node: VNode)
    ensures
        node@ == (NodeView::Element { tag: tag@, attrs: props@, children: views(children@) }),
        (forall|i: int| 0 <= i < children@.len() ==> well_formed(#[trigger] views(children@)[i]))
            ==> well_formed(node@),
{
    proof {
        use_type_invariant(&props);
    }
    VNode::Element { tag: tag.to_owned(), props, children }
}

/// A text leaf, which is well formed.
pub fn text(t: &str) -> (node: VNode)
    ensures
        node@ == NodeView::Text(t@),
        well_formed(node@),
{
    VNode::Text(t.to_owned())
}

} // verus!
