//! Hooks that a component registers for the moment it is mounted and for the
//! moment before it is destroyed.

use vstd::prelude::*;

verus! {

/// A hook: work that is done once, on a context of type `C` that the
/// component hands to its hooks.
pub trait Hook<C>: Sized {
    /// What the work may do: it may turn the context `before` into
    /// `after`. A hook that says nothing of its work keeps this default,
    /// under which every outcome counts.
    open spec fn ran(self, before: C, after: C) -> bool {
        true
    }

    /// Does the work, as `ran` says, which uses the hook up.
    fn run(self, ctx: &mut C)
        ensures
            self.ran(*old(ctx), *final(ctx)),
    ;
}

/// The first `n` hooks of `list`, run one after the other and in order,
/// turn the context `before` into `after`.
pub open spec fn hooks_ran<C, H: Hook<C>>(list: Seq<H>, n: nat, before: C, after: C) -> bool
    decreases n,
{
    if n == 0 || n > list.len() {
        after == before
    } else {
        let hook = list[n - 1];
        exists|mid: C| hooks_ran(list, (n - 1) as nat, before, mid) && #[trigger] hook.ran(mid, after)
    }
}

/// The hooks registered and not yet run.
pub struct Hooks<H> {
    mounted: Vec<H>,
    destroy: Vec<H>,
}

impl<H> Hooks<H> {
    /// The hooks that wait for the mount, in the order of their registration.
    pub closed spec fn mounted(&self) -> Seq<H> {
        self.mounted@
    }

    /// The hooks that wait for the destruction, in the order of their
    /// registration.
    pub closed spec fn destroy(&self) -> Seq<H> {
        self.destroy@
    }

    /// No hooks.
    pub fn new() -> (hooks: Self)
        ensures
            hooks.mounted() == Seq::<H>::empty(),
            hooks.destroy() == Seq::<H>::empty(),
    {
        Hooks { mounted: Vec::new(), destroy: Vec::new() }
    }
}

/// Registers `f` to run when the component is mounted.
pub fn on_mounted<H>(hooks: &mut Hooks<H>, f: H)
    ensures
        final(hooks).mounted() == old(hooks).mounted().push(f),
        final(hooks).destroy() == old(hooks).destroy(),
{
    hooks.mounted.push(f);
}

/// Registers `f` to run before the component is destroyed.
pub fn before_destroy<H>(hooks: &mut Hooks<H>, f: H)
    ensures
        final(hooks).destroy() == old(hooks).destroy().push(f),
        final(hooks).mounted() == old(hooks).mounted(),
{
    hooks.destroy.push(f);
}

/// Runs each of `list` in order on `ctx`, using them up. Returns how many
/// ran.
fn run_all<C, H: Hook<C>>(list: Vec<H>, ctx: &mut C) -> (ran: usize)
    ensures
        ran == list@.len(),
        hooks_ran(list@, list@.len(), *old(ctx), *final(ctx)),
{
    let mut rest = list;
    let total = rest.len();
    let mut ran: usize = 0;
    while rest.len() > 0
        invariant
            ran + rest@.len() == total,
            total == list@.len(),
            rest@ == list@.subrange(ran as int, total as int),
            hooks_ran(list@, ran as nat, *old(ctx), *ctx),
        decreases rest@.len(),
    {
        let ghost mid = *ctx;
        let hook = rest.remove(0);
        assert(hook == list@[ran as int]);
        hook.run(ctx);
        proof {
            assert(rest@ =~= list@.subrange(ran + 1, total as int));
            let next = (ran + 1) as nat;
            assert(list@[next - 1] == list@[ran as int]);
            assert(hooks_ran(list@, (next - 1) as nat, *old(ctx), mid) && list@[next - 1].ran(
                mid,
                *ctx,
            ));
            assert(hooks_ran(list@, next, *old(ctx), *ctx));
        }
        ran = ran + 1;
    }
    ran
}

/// Runs the hooks that wait for the mount on `ctx`, in the order of their
/// registration, and forgets them. Returns how many ran.
pub fn run_mounted_hooks<C, H: Hook<C>>(hooks: &mut Hooks<H>, ctx: &mut C) -> (ran: usize)
    ensures
        ran == old(hooks).mounted().len(),
        hooks_ran(old(hooks).mounted(), old(hooks).mounted().len(), *old(ctx), *final(ctx)),
        final(hooks).mounted() == Seq::<H>::empty(),
        final(hooks).destroy() == old(hooks).destroy(),
{
    let mut list: Vec<H> = Vec::new();
    core::mem::swap(&mut list, &mut hooks.mounted);
    run_all(list, ctx)
}

/// Runs the hooks that wait for the destruction on `ctx`, in the order of
/// their registration, and forgets them. Returns how many ran.
pub fn run_destroy_hooks<C, H: Hook<C>>(hooks: &mut Hooks<H>, ctx: &mut C) -> (ran: usize)
    ensures
        ran == old(hooks).destroy().len(),
        hooks_ran(old(hooks).destroy(), old(hooks).destroy().len(), *old(ctx), *final(ctx)),
        final(hooks).destroy() == Seq::<H>::empty(),
        final(hooks).mounted() == old(hooks).mounted(),
{
    let mut list: Vec<H> = Vec::new();
    core::mem::swap(&mut list, &mut hooks.destroy);
    run_all(list, ctx)
}

} // verus!
