//! Watching a computed value: an effect that calls back only when the value
//! it computes has changed since its last run.

use crate::signal::{begun_graph, effect, given_back_graph, Effect, Graph, Runtime};
use vstd::prelude::*;
use vstd::std_specs::cmp::PartialEqSpec;

verus! {

/// What a watch computes: a value read from the graph. Reading signals
/// subscribes the watch to them.
pub trait Source<T, E, V>: Sized {
    /// What one evaluation may do: started in the graph `before`, it may
    /// leave the source as `after_self` and the graph as `after`, and give
    /// `value`. A source that says nothing of its evaluations keeps this
    /// default, under which every outcome counts.
    open spec fn evaluated(
        &self,
        before: Graph<T, E>,
        after_self: Self,
        after: Graph<T, E>,
        value: V,
    ) -> bool {
        true
    }

    /// Computes the value, as `evaluated` says. Whatever it does to the
    /// graph, it leaves it well formed and takes nothing away from it.
    fn eval(&mut self, rt: &mut Runtime<T, E>) -> (value: V)
        requires
            old(rt).wf(),
        ensures
            final(rt).wf(),
            final(rt)@.extends(old(rt)@),
            old(self).evaluated(old(rt)@, *final(self), final(rt)@, value),
    ;
}

/// What a watch calls when its value has changed.
pub trait Callback<T, E, V>: Sized {
    /// What one call may do: handed `new` and `previous` in the graph
    /// `before`, it may leave the callback as `after_self` and the graph as
    /// `after`. A callback that says nothing of its calls keeps this
    /// default, under which every outcome counts.
    open spec fn called(
        &self,
        before: Graph<T, E>,
        new: V,
        previous: V,
        after_self: Self,
        after: Graph<T, E>,
    ) -> bool {
        true
    }

    /// Is handed the new value and the one before it, and does what
    /// `called` says. Whatever it does to the graph, it leaves it well formed
    /// and takes nothing away from it.
    fn call(&mut self, rt: &mut Runtime<T, E>, new: &V, previous: &V)
        requires
            old(rt).wf(),
        ensures
            final(rt).wf(),
            final(rt)@.extends(old(rt)@),
            old(self).called(old(rt)@, *new, *previous, *final(self), final(rt)@),
    ;
}

/// What one run of a watch decides when it has computed `next` and retains
/// `previous`: the value it retains from then on, and whether it calls back.
pub open spec fn observed<V: PartialEq>(previous: Option<V>, next: V) -> (Option<V>, bool) {
    match previous {
        None => (Some(next), false),
        Some(p) => if p.eq_spec(&next) {
            (previous, false)
        } else {
            (Some(next), true)
        },
    }
}

/// One run of a watch, after the value `next` has been computed. The first
/// run retains `next` as the baseline and asks for no call. A later run whose
/// value differs from the retained one retains `next` and asks for a call with
/// a copy of `next` and a copy of the value retained before. A run whose value
/// is equal changes nothing and asks for no call.
pub fn observe<V: PartialEq + Clone>(retained: &mut Option<V>, next: V) -> (fire: Option<(V, V)>)
    ensures
        V::obeys_eq_spec() ==> *final(retained) == observed(*old(retained), next).0,
        V::obeys_eq_spec() ==> (fire is Some <==> observed(*old(retained), next).1),
        *old(retained) is None ==> fire is None && *final(retained) == Some(next),
        fire is None ==> *final(retained) == *old(retained) || *old(retained) is None,
        fire matches Some((n, p)) ==> *old(retained) is Some && *final(retained) == Some(next)
            && cloned(next, n) && cloned(old(retained)->0, p),
{
    let changed = match &*retained {
        Some(p) => *p != next,
        None => false,
    };
    if changed {
        let previous = match &*retained {
            Some(p) => p.clone(),
            None => next.clone(),
        };
        let new = next.clone();
        *retained = Some(next);
        Some((new, previous))
    } else {
        if retained.is_none() {
            *retained = Some(next);
        }
        None
    }
}

/// The body of a watch: a source, a callback, and the value retained from
/// the last run, `None` before the first.
pub struct Watch<S, C, V> {
    pub source: S,
    pub callback: C,
    pub retained: Option<V>,
}

/// What a watch does with the value `next` that its source gave in the graph
/// `mid`, when it retained `retained` and its callback was `callback`. On the
/// first run it retains `next`, and neither the callback nor the graph
/// changes. On a later run with an equal value nothing changes. On a later
/// run with another value it retains `next`, and the callback is called once
/// in `mid` with a copy of `next` and a copy of the value retained before,
/// which leaves the callback as `after_callback` and the graph as `after`.
pub open spec fn decided<T, E, C: Callback<T, E, V>, V: PartialEq + Clone>(
    retained: Option<V>,
    callback: C,
    next: V,
    mid: Graph<T, E>,
    after_retained: Option<V>,
    after_callback: C,
    after: Graph<T, E>,
) -> bool {
    match retained {
        None => after_retained == Some(next) && after_callback == callback && after == mid,
        Some(p) => {
            ||| {
                &&& V::obeys_eq_spec() ==> p.eq_spec(&next)
                &&& after_retained == retained
                &&& after_callback == callback
                &&& after == mid
            }
            ||| {
                &&& V::obeys_eq_spec() ==> !p.eq_spec(&next)
                &&& after_retained == Some(next)
                &&& exists|n: V, q: V| #[trigger]
                    callback.called(mid, n, q, after_callback, after) && cloned(next, n) && cloned(
                        p,
                        q,
                    )
            }
        },
    }
}

/// Where equality on `V` is the one its specification gives, a watch retains
/// what `observed` says and calls back exactly when `observed` says so.
pub proof fn decided_is_observed<T, E, C: Callback<T, E, V>, V: PartialEq + Clone>(
    retained: Option<V>,
    callback: C,
    next: V,
    mid: Graph<T, E>,
    after_retained: Option<V>,
    after_callback: C,
    after: Graph<T, E>,
)
    requires
        V::obeys_eq_spec(),
        decided(retained, callback, next, mid, after_retained, after_callback, after),
    ensures
        after_retained == observed(retained, next).0,
        observed(retained, next).1 ==> exists|n: V, q: V| #[trigger]
            callback.called(mid, n, q, after_callback, after) && cloned(next, n) && cloned(
                retained->0,
                q,
            ),
        !observed(retained, next).1 ==> after_callback == callback && after == mid,
{
}

/// One run of the watch `w` leads from the graph `before` to the graph
/// `after` and leaves the watch as `after_w`: the source is evaluated once
/// in `before`, and the watch does with its value what `decided` says.
pub open spec fn stepped<T, E, S: Source<T, E, V>, C: Callback<T, E, V>, V: PartialEq + Clone>(
    w: Watch<S, C, V>,
    before: Graph<T, E>,
    after_w: Watch<S, C, V>,
    after: Graph<T, E>,
) -> bool {
    exists|next: V, mid: Graph<T, E>| #[trigger]
        w.source.evaluated(before, after_w.source, mid, next) && decided(
            w.retained,
            w.callback,
            next,
            mid,
            after_w.retained,
            after_w.callback,
            after,
        )
}

impl<S, C, V> Watch<S, C, V> {
    /// A watch that has not run yet.
    pub fn new(source: S, callback: C) -> (w: Self)
        ensures
            w == (Watch::<S, C, V> { source, callback, retained: None }),
    {
        Watch { source, callback, retained: None }
    }

    /// Runs the watch once in a graph whose effects are of type `E`: computes
    /// the source, decides as `observe` does, and calls back if it asks for
    /// it, after the new value has been retained, so that a callback that sets
    /// a signal finds the watch up to date.
    pub fn step<T, E>(&mut self, rt: &mut Runtime<T, E>) where
        S: Source<T, E, V>,
        C: Callback<T, E, V>,
        V: PartialEq + Clone,

        requires
            old(rt).wf(),
        ensures
            final(rt).wf(),
            final(rt)@.extends(old(rt)@),
            stepped(*old(self), old(rt)@, *final(self), final(rt)@),
            final(self).retained is Some,
    {
        let ghost before = rt@;
        let ghost w0 = *self;
        let next = self.source.eval(rt);
        let ghost value = next;
        let ghost evaluated = rt@;
        match observe(&mut self.retained, next) {
            Some((new, previous)) => {
                self.callback.call(rt, &new, &previous);
                proof {
                    crate::signal::extends_is_preorder(before, evaluated, rt@);
                    assert(w0.callback.called(evaluated, new, previous, self.callback, rt@)
                        && cloned(value, new) && cloned(w0.retained->0, previous));
                }
            },
            None => {},
        }
        proof {
            assert(w0.source.evaluated(before, self.source, evaluated, value) && decided(
                w0.retained,
                w0.callback,
                value,
                evaluated,
                self.retained,
                self.callback,
                rt@,
            ));
        }
    }
}

impl<T, S, C, V> Effect<T> for Watch<S, C, V> where
    S: Source<T, Watch<S, C, V>, V>,
    C: Callback<T, Watch<S, C, V>, V>,
    V: PartialEq + Clone,
 {
    /// One run of the watch is one step of it.
    open spec fn ran(&self, before: Graph<T, Self>, after_self: Self, after: Graph<T, Self>) -> bool {
        stepped(*self, before, after_self, after)
    }

    /// One run of the watch as an effect: what `step` does.
    fn run(&mut self, rt: &mut Runtime<T, Self>)
        ensures
            final(self).retained is Some,
    {
        self.step(rt)
    }
}

/// Watches `source`: it is computed once at once, which subscribes the watch
/// to the signals it reads, and its value is retained without a call; from
/// then on it is computed again whenever one of them is set, and `callback` is
/// called with the new and the previous value whenever the two differ. Returns
/// the identifier of the effect that does this.
pub fn watch<T, S, C, V>(rt: &mut Runtime<T, Watch<S, C, V>>, source: S, callback: C) -> (id:
    usize) where
    S: Source<T, Watch<S, C, V>, V>,
    C: Callback<T, Watch<S, C, V>, V>,
    V: PartialEq + Clone,

    requires
        old(rt).wf(),
    ensures
        final(rt).wf(),
        final(rt)@.extends(old(rt)@),
        id == old(rt)@.bodies.len(),
        id < final(rt)@.bodies.len(),
        final(rt)@.bodies[id as int] is Some,
        final(rt)@.current is None,
        exists|s: S, value: V, mid: Graph<T, Watch<S, C, V>>| #[trigger]
            source.evaluated(begun_graph(old(rt)@, id), s, mid, value) && final(rt)@
                == given_back_graph(
                mid,
                id,
                Some((Watch { source: s, callback, retained: Some(value) })),
            ),
{
    let ghost before = rt@;
    let w = Watch::new(source, callback);
    let ghost w0 = w;
    let id = effect(rt, w);
    proof {
        let (b, mid) = choose|b: Watch<S, C, V>, mid: Graph<T, Watch<S, C, V>>| #[trigger]
            w0.ran(begun_graph(before, id), b, mid) && rt@ == given_back_graph(mid, id, Some(b));
        let (next, mid2) = choose|next: V, mid2: Graph<T, Watch<S, C, V>>| #[trigger]
            w0.source.evaluated(begun_graph(before, id), b.source, mid2, next) && decided(
                w0.retained,
                w0.callback,
                next,
                mid2,
                b.retained,
                b.callback,
                mid,
            );
        assert(b == (Watch { source: b.source, callback, retained: Some(next) }));
        assert(source.evaluated(begun_graph(before, id), b.source, mid, next) && rt@
            == given_back_graph(
            mid,
            id,
            Some((Watch { source: b.source, callback, retained: Some(next) })),
        ));
    }
    id
}

} // verus!
