//! Events: handlers registered by name, and the dispatch of an event to the
//! handlers that the elements of a mounted tree name for it.

use crate::dom::{lookup, NodeView, VNode};
use crate::renderer::RenderTree;
use vstd::prelude::*;

verus! {

/// A handler: what runs when an event reaches a name it is registered under.
pub trait Handler: Sized {
    /// What one call may do: it may leave the handler as `after`. A handler
    /// that says nothing of its calls keeps this default, under which every
    /// outcome counts.
    open spec fn called(&self, after: Self) -> bool {
        true
    }

    /// Runs the handler once, as `called` says.
    fn call(&mut self)
        ensures
            old(self).called(*final(self)),
    ;
}

/// One call under `name` leads from the handlers `before` to the handlers
/// `after`: the handler registered under `name` is called once and no other
/// is touched; where none is registered under it, nothing changes.
pub open spec fn call_of<H: Handler>(
    names: Seq<Seq<char>>,
    before: Seq<H>,
    name: Seq<char>,
    after: Seq<H>,
) -> bool {
    if names.contains(name) {
        let i = names.index_of(name);
        before[i].called(after[i]) && after == before.update(i, after[i])
    } else {
        after == before
    }
}

/// Calls under the first `n` names of `wanted`, one after the other and in
/// order, lead from the handlers `before` to the handlers `after`.
pub open spec fn dispatched<H: Handler>(
    names: Seq<Seq<char>>,
    before: Seq<H>,
    wanted: Seq<Seq<char>>,
    n: nat,
    after: Seq<H>,
) -> bool
    decreases n,
{
    if n == 0 || n > wanted.len() {
        after == before
    } else {
        let name = wanted[n - 1];
        exists|mid: Seq<H>|
            dispatched(names, before, wanted, (n - 1) as nat, mid) && #[trigger] call_of(
                names,
                mid,
                name,
                after,
            )
    }
}

/// The views of the strings of `strings`, in order.
pub open spec fn texts(strings: Seq<String>) -> Seq<Seq<char>> {
    Seq::new(strings.len(), |i: int| strings[i]@)
}

/// The handlers registered, each under a name of its own.
pub struct EventRegistry<H> {
    names: Vec<String>,
    handlers: Vec<H>,
}

impl<H> EventRegistry<H> {
    /// The names under which a handler is registered, in the order in which
    /// they were first used.
    pub closed spec fn names(&self) -> Seq<Seq<char>> {
        texts(self.names@)
    }

    /// The handlers, each at the position of its name.
    pub closed spec fn handlers(&self) -> Seq<H> {
        self.handlers@
    }

    /// Each name has one handler, and no name occurs twice.
    pub open spec fn wf(&self) -> bool {
        self.names().len() == self.handlers().len() && self.names().no_duplicates()
    }

    /// A registry without handlers.
    pub fn new() -> (registry: Self)
        ensures
            registry.wf(),
            registry.names() == Seq::<Seq<char>>::empty(),
            registry.handlers() == Seq::<H>::empty(),
    {
        let registry = EventRegistry { names: Vec::new(), handlers: Vec::new() };
        assert(texts(registry.names@) =~= Seq::<Seq<char>>::empty());
        registry
    }

    /// The position of `name`, or the number of names if it is not one.
    fn position(&self, name: &str) -> (p: usize)
        ensures
            p <= self.names().len(),
            p < self.names().len() ==> self.names()[p as int] == name@,
            p == self.names().len() ==> !self.names().contains(name@),
    {
        let mut i: usize = 0;
        while i < self.names.len()
            invariant
                i <= self.names@.len(),
                forall|j: int| 0 <= j < i ==> texts(self.names@)[j] != name@,
            decreases self.names@.len() - i,
        {
            if self.names[i].as_str().eq(name) {
                return i;
            }
            i = i + 1;
        }
        i
    }

    /// Whether a handler is registered under `name`.
    pub fn has(&self, name: &str) -> (b: bool)
        ensures
            b == self.names().contains(name@),
    {
        let p = self.position(name);
        p < self.names.len()
    }

    /// Registers `f` under `name`, in the place of a handler registered
    /// under that name before.
    pub fn on(&mut self, name: &str, f: H)
        requires
            old(self).wf(),
        ensures
            final(self).wf(),
            old(self).names().contains(name@) ==> final(self).names() == old(self).names()
                && final(self).handlers() == old(self).handlers().update(
                old(self).names().index_of(name@),
                f,
            ),
            !old(self).names().contains(name@) ==> final(self).names() == old(self).names().push(
                name@,
            ) && final(self).handlers() == old(self).handlers().push(f),
    {
        let p = self.position(name);
        let ghost names0 = texts(self.names@);
        if p < self.names.len() {
            self.handlers.set(p, f);
            proof {
                let q = names0.index_of(name@);
                assert(names0[p as int] == name@);
                assert(names0.contains(name@));
                assert(0 <= q < names0.len() && names0[q] == name@);
                assert(q == p);
            }
        } else {
            self.names.push(name.to_owned());
            self.handlers.push(f);
            proof {
                let names1 = texts(self.names@);
                assert(names1 =~= names0.push(name@));
                assert forall|i: int, j: int|
                    0 <= i < names1.len() && 0 <= j < names1.len() && i != j implies names1[i]
                        != names1[j] by {
                    if i < names0.len() && j < names0.len() {
                        assert(names0[i] != names0[j]);
                    } else if i < names0.len() {
                        assert(names0.contains(names0[i]));
                    } else {
                        assert(names0.contains(names0[j]));
                    }
                }
            }
        }
    }

    /// Forgets the handler registered under `name`, if there is one.
    pub fn remove(&mut self, name: &str)
        requires
            old(self).wf(),
        ensures
            final(self).wf(),
            !final(self).names().contains(name@),
            !old(self).names().contains(name@) ==> final(self).names() == old(self).names()
                && final(self).handlers() == old(self).handlers(),
            old(self).names().contains(name@) ==> final(self).names() == old(self).names().remove(
                old(self).names().index_of(name@),
            ) && final(self).handlers() == old(self).handlers().remove(
                old(self).names().index_of(name@),
            ),
    {
        let p = self.position(name);
        let ghost names0 = texts(self.names@);
        if p < self.names.len() {
            self.names.remove(p);
            self.handlers.remove(p);
            proof {
                let names1 = texts(self.names@);
                let q = names0.index_of(name@);
                assert(names0[p as int] == name@);
                assert(names0.contains(name@));
                assert(0 <= q < names0.len() && names0[q] == name@);
                assert(q == p);
                assert(names1 =~= names0.remove(p as int));
                assert forall|i: int, j: int|
                    0 <= i < names1.len() && 0 <= j < names1.len() && i != j implies names1[i]
                        != names1[j] by {
                    let a = if i < p { i } else { i + 1 };
                    let b = if j < p { j } else { j + 1 };
                    assert(names0[a] != names0[b]);
                }
                if names1.contains(name@) {
                    let w = choose|w: int| 0 <= w < names1.len() && names1[w] == name@;
                    let a = if w < p { w } else { w + 1 };
                    assert(names0[a] != names0[p as int]);
                }
            }
        }
    }

    /// Calls the handler registered under `name`, if there is one, and says
    /// whether there was one. No other handler is touched.
    pub fn call(&mut self, name: &str) -> (called: bool) where H: Handler
        requires
            old(self).wf(),
        ensures
            final(self).wf(),
            called == old(self).names().contains(name@),
            final(self).names() == old(self).names(),
            final(self).handlers().len() == old(self).handlers().len(),
            !called ==> final(self).handlers() == old(self).handlers(),
            forall|i: int|
                0 <= i < old(self).handlers().len() && old(self).names()[i] != name@
                    ==> #[trigger] final(self).handlers()[i] == old(self).handlers()[i],
            call_of(old(self).names(), old(self).handlers(), name@, final(self).handlers()),
    {
        let p = self.position(name);
        if p < self.names.len() {
            let ghost names0 = self.names();
            let ghost handlers0 = self.handlers();
            let mut handler = self.handlers.remove(p);
            handler.call();
            self.handlers.insert(p, handler);
            proof {
                let q = names0.index_of(name@);
                assert(names0[p as int] == name@);
                assert(names0.contains(name@));
                assert(0 <= q < names0.len() && names0[q] == name@);
                assert(q == p);
                assert(self.handlers() =~= handlers0.update(p as int, self.handlers()[p as int]));
            }
            true
        } else {
            false
        }
    }
}

/// The handler names that the elements of the tree give under the attribute
/// `key`, the element first and then its children in order.
pub open spec fn targets(node: NodeView, key: Seq<char>) -> Seq<Seq<char>>
    decreases node, 0nat,
{
    match node {
        NodeView::Text(_) => Seq::empty(),
        NodeView::Element { attrs, children, .. } => (match lookup(attrs, key) {
            Some(v) => seq![v],
            None => Seq::empty(),
        }) + targets_of(children, key, children.len()),
    }
}

/// The handler names that the first `n` trees of `nodes` give, in order.
pub open spec fn targets_of(nodes: Seq<NodeView>, key: Seq<char>, n: nat) -> Seq<Seq<char>>
    decreases nodes, n,
{
    if n == 0 || n > nodes.len() {
        Seq::empty()
    } else {
        targets_of(nodes, key, (n - 1) as nat) + targets(nodes[n - 1], key)
    }
}

/// How many of the first `n` names of `wanted` are among `names`.
pub open spec fn registered_among(wanted: Seq<Seq<char>>, names: Seq<Seq<char>>, n: nat) -> nat
    decreases n,
{
    if n == 0 || n > wanted.len() {
        0
    } else {
        registered_among(wanted, names, (n - 1) as nat) + if names.contains(wanted[n - 1]) {
            1nat
        } else {
            0nat
        }
    }
}

/// Appends to `out` the handler names that the tree gives under `key`.
pub fn collect_targets(node: &VNode, key: &str, out: &mut Vec<String>)
    ensures
        texts(final(out)@) == texts(old(out)@) + targets(node@, key@),
    decreases node, 0nat,
{
    let ghost start = texts(out@);
    match node {
        VNode::Text(_) => {
            assert(texts(out@) =~= start + targets(node@, key@));
        },
        VNode::Element { props, children, .. } => {
            match props.get(key) {
                Some(v) => {
                    out.push(v.clone());
                    assert(texts(out@) =~= start + seq![v@]);
                },
                None => {
                    assert(texts(out@) =~= start + Seq::<Seq<char>>::empty());
                },
            }
            let ghost own = texts(out@);
            collect_targets_of(children, key, out);
            assert(texts(out@) =~= start + targets(node@, key@));
        },
    }
}

/// Appends to `out` the handler names that the trees give under `key`.
fn collect_targets_of(nodes: &Vec<VNode>, key: &str, out: &mut Vec<String>)
    ensures
        texts(final(out)@) == texts(old(out)@) + targets_of(
            crate::dom::views(nodes@),
            key@,
            nodes@.len() as nat,
        ),
    decreases nodes, 1nat,
{
    let ghost own = texts(out@);
    let ghost kids = crate::dom::views(nodes@);
    let mut i: usize = 0;
    assert(texts(out@) =~= own + targets_of(kids, key@, 0));
    while i < nodes.len()
        invariant
            i <= nodes@.len(),
            kids == crate::dom::views(nodes@),
            texts(out@) == own + targets_of(kids, key@, i as nat),
        decreases nodes@.len() - i,
    {
        assert(kids[i as int] == nodes@[i as int]@);
        collect_targets(&nodes[i], key, out);
        assert(texts(out@) =~= own + targets_of(kids, key@, (i + 1) as nat));
        i = i + 1;
    }
}

/// The attribute that names the handler of `event`: `on:` and the event.
pub open spec fn handler_key(event: Seq<char>) -> Seq<char> {
    "on:"@ + event
}

/// Dispatches `event`: each element of the tree that names a handler under
/// `on:` and the event has that handler called, if one is registered under
/// the name; the elements are taken in document order. Returns the number of
/// calls made. A handler that no element names is not touched.
pub fn dispatch<H: Handler>(event: &str, tree: &RenderTree, registry: &mut EventRegistry<H>) -> (invoked:
    usize)
    requires
        old(registry).wf(),
    ensures
        final(registry).wf(),
        invoked == registered_among(
            targets(tree.root@, handler_key(event@)),
            old(registry).names(),
            targets(tree.root@, handler_key(event@)).len(),
        ),
        final(registry).names() == old(registry).names(),
        final(registry).handlers().len() == old(registry).handlers().len(),
        forall|i: int|
            0 <= i < old(registry).handlers().len() && !targets(
                tree.root@,
                handler_key(event@),
            ).contains(old(registry).names()[i]) ==> #[trigger] final(registry).handlers()[i] == old(
                registry,
            ).handlers()[i],
        dispatched(
            old(registry).names(),
            old(registry).handlers(),
            targets(tree.root@, handler_key(event@)),
            targets(tree.root@, handler_key(event@)).len(),
            final(registry).handlers(),
        ),
{
    let mut key = String::from_str("on:");
    key.append(event);
    let mut found: Vec<String> = Vec::new();
    collect_targets(&tree.root, key.as_str(), &mut found);
    assert(texts(found@) =~= targets(tree.root@, handler_key(event@)));
    let ghost wanted = texts(found@);
    let ghost names = registry.names();
    let mut invoked: usize = 0;
    let mut i: usize = 0;
    while i < found.len()
        invariant
            i <= found@.len(),
            wanted == texts(found@),
            invoked == registered_among(wanted, names, i as nat),
            invoked <= i,
            registry.wf(),
            registry.names() == names,
            registry.handlers().len() == old(registry).handlers().len(),
            forall|k: int|
                0 <= k < names.len() && !wanted.contains(names[k])
                    ==> #[trigger] registry.handlers()[k] == old(registry).handlers()[k],
            dispatched(names, old(registry).handlers(), wanted, i as nat, registry.handlers()),
        decreases found@.len() - i,
    {
        assert(wanted[i as int] == found@[i as int]@);
        assert(wanted.contains(wanted[i as int]));
        let ghost mid = registry.handlers();
        if registry.call(found[i].as_str()) {
            invoked = invoked + 1;
        }
        proof {
            assert(dispatched(names, old(registry).handlers(), wanted, i as nat, mid) && call_of(
                names,
                mid,
                wanted[i as int],
                registry.handlers(),
            ));
        }
        i = i + 1;
    }
    invoked
}

/// The longest time between two clicks that make a double click, in
/// milliseconds.
pub const DOUBLE_CLICK_MS: u64 = 400;

/// What a click at the time `now` is, when the last click that still counts
/// was at `last`: a double click if there is such a click and no more than
/// `DOUBLE_CLICK_MS` have passed since.
pub open spec fn is_double_click(last: Option<u64>, now: u64) -> bool {
    match last {
        Some(prev) => now - prev <= DOUBLE_CLICK_MS,
        None => false,
    }
}

/// Turns input events into dispatches over a mounted tree.
pub struct Runtime<H> {
    /// The mounted tree.
    pub tree: RenderTree,
    /// The handlers.
    pub registry: EventRegistry<H>,
    /// The time of the last click that can still become a double click.
    pub last_click: Option<u64>,
    /// Whether the hover event has been sent since the last reset.
    pub hover_sent: bool,
}

impl<H> Runtime<H> {
    /// A runtime over `tree` with no handlers, no click and no hover so far.
    pub fn new(tree: RenderTree) -> (rt: Self)
        ensures
            rt.registry.wf(),
            rt.tree == tree,
            rt.registry.names() == Seq::<Seq<char>>::empty(),
            rt.last_click is None,
            !rt.hover_sent,
    {
        Runtime { tree, registry: EventRegistry::new(), last_click: None, hover_sent: false }
    }

    /// A press of the left mouse button at the time `now`, in milliseconds on
    /// a clock that does not run backwards (an earlier time counts as the
    /// time of the last click). A click within `DOUBLE_CLICK_MS` of the last
    /// one dispatches `dblclick` and starts anew; any other dispatches `click`
    /// and is remembered. Returns the number of handlers called.
    pub fn mouse_click(&mut self, now: u64) -> (invoked: usize) where H: Handler
        requires
            old(self).registry.wf(),
        ensures
            final(self).registry.wf(),
            final(self).tree == old(self).tree,
            final(self).registry.names() == old(self).registry.names(),
            final(self).hover_sent == old(self).hover_sent,
            is_double_click(old(self).last_click, now) ==> final(self).last_click is None
                && invoked == registered_among(
                targets(old(self).tree.root@, handler_key("dblclick"@)),
                old(self).registry.names(),
                targets(old(self).tree.root@, handler_key("dblclick"@)).len(),
            ) && dispatched(
                old(self).registry.names(),
                old(self).registry.handlers(),
                targets(old(self).tree.root@, handler_key("dblclick"@)),
                targets(old(self).tree.root@, handler_key("dblclick"@)).len(),
                final(self).registry.handlers(),
            ),
            !is_double_click(old(self).last_click, now) ==> final(self).last_click == Some(now)
                && invoked == registered_among(
                targets(old(self).tree.root@, handler_key("click"@)),
                old(self).registry.names(),
                targets(old(self).tree.root@, handler_key("click"@)).len(),
            ) && dispatched(
                old(self).registry.names(),
                old(self).registry.handlers(),
                targets(old(self).tree.root@, handler_key("click"@)),
                targets(old(self).tree.root@, handler_key("click"@)).len(),
                final(self).registry.handlers(),
            ),
    {
        let double = match self.last_click {
            Some(prev) => now <= prev || now - prev <= DOUBLE_CLICK_MS,
            None => false,
        };
        if double {
            self.last_click = None;
            dispatch("dblclick", &self.tree, &mut self.registry)
        } else {
            self.last_click = Some(now);
            dispatch("click", &self.tree, &mut self.registry)
        }
    }

    /// A move of the cursor: dispatches `hover` once, and nothing until the
    /// next reset. Returns the number of handlers called.
    pub fn cursor_moved(&mut self) -> (invoked: usize) where H: Handler
        requires
            old(self).registry.wf(),
        ensures
            final(self).registry.wf(),
            final(self).tree == old(self).tree,
            final(self).registry.names() == old(self).registry.names(),
            final(self).last_click == old(self).last_click,
            final(self).hover_sent,
            old(self).hover_sent ==> invoked == 0 && final(self).registry == old(self).registry,
            !old(self).hover_sent ==> invoked == registered_among(
                targets(old(self).tree.root@, handler_key("hover"@)),
                old(self).registry.names(),
                targets(old(self).tree.root@, handler_key("hover"@)).len(),
            ) && dispatched(
                old(self).registry.names(),
                old(self).registry.handlers(),
                targets(old(self).tree.root@, handler_key("hover"@)),
                targets(old(self).tree.root@, handler_key("hover"@)).len(),
                final(self).registry.handlers(),
            ),
    {
        if self.hover_sent {
            return 0;
        }
        self.hover_sent = true;
        dispatch("hover", &self.tree, &mut self.registry)
    }

    /// Lets the next move of the cursor dispatch `hover` again.
    pub fn reset_hover(&mut self)
        ensures
            !final(self).hover_sent,
            final(self).tree == old(self).tree,
            final(self).registry == old(self).registry,
            final(self).last_click == old(self).last_click,
    {
        self.hover_sent = false;
    }
}

} // verus!
