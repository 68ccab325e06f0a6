//! The reactive graph: signals, the effects that read them, and the scheduler
//! that runs an effect again whenever a signal it read is set.

use std::collections::HashSet;
use vstd::prelude::*;

verus! {

broadcast use vstd::std_specs::hash::group_hash_axioms;

/// The reactive graph as the contracts see it.
pub struct Graph<T, E> {
    /// The current value of each signal.
    pub values: Seq<T>,
    /// For each signal, the effects subscribed to it, in the order in which
    /// they subscribed.
    pub subscribers: Seq<Seq<usize>>,
    /// For each effect, its body; `None` while the body is detached because
    /// the effect is running.
    pub bodies: Seq<Option<E>>,
    /// The effect to which a signal read is attributed.
    pub current: Option<usize>,
    /// The pending effects; the last one runs first.
    pub queue: Seq<usize>,
    /// Whether a flush is draining the queue.
    pub flushing: bool,
    /// How many effects one flush runs at most.
    pub flush_limit: usize,
}

impl<T, E> Graph<T, E> {
    /// Every subscriber and every pending effect exists, the tracked effect
    /// exists, no effect is subscribed twice to one signal, and none is
    /// pending twice.
    pub open spec fn well_formed(self) -> bool {
        &&& self.subscribers.len() == self.values.len()
        &&& forall|s: int, k: int|
            0 <= s < self.subscribers.len() && 0 <= k < self.subscribers[s].len()
                ==> #[trigger] self.subscribers[s][k] < self.bodies.len()
        &&& forall|s: int|
            0 <= s < self.subscribers.len() ==> (#[trigger] self.subscribers[s]).no_duplicates()
        &&& forall|i: int| 0 <= i < self.queue.len() ==> #[trigger] self.queue[i] < self.bodies.len()
        &&& self.queue.no_duplicates()
        &&& match self.current {
            Some(c) => c < self.bodies.len(),
            None => true,
        }
    }

    /// `self` can follow `before`: no signal and no effect has gone, no
    /// subscriber has left or moved, and the flush flag and limit are as they
    /// were.
    pub open spec fn extends(self, before: Self) -> bool {
        &&& before.values.len() <= self.values.len()
        &&& before.bodies.len() <= self.bodies.len()
        &&& before.subscribers.len() <= self.subscribers.len()
        &&& forall|s: int|
            0 <= s < before.subscribers.len() ==> (#[trigger] before.subscribers[s]).is_prefix_of(
                self.subscribers[s],
            )
        &&& self.flushing == before.flushing
        &&& self.flush_limit == before.flush_limit
    }
}

/// `extends` is reflexive and transitive.
pub proof fn extends_is_preorder<T, E>(a: Graph<T, E>, b: Graph<T, E>, c: Graph<T, E>)
    ensures
        a.extends(a),
        b.extends(a) && c.extends(b) ==> c.extends(a),
{
    if b.extends(a) && c.extends(b) {
        assert forall|s: int| 0 <= s < a.subscribers.len() implies (
        #[trigger] a.subscribers[s]).is_prefix_of(c.subscribers[s]) by {
            assert(a.subscribers[s].is_prefix_of(b.subscribers[s]));
            assert(b.subscribers[s].is_prefix_of(c.subscribers[s]));
        }
    }
}

/// `queue` after `id` has been enqueued: unchanged if `id` is pending, and
/// with `id` as its new last entry otherwise.
pub open spec fn enqueued(queue: Seq<usize>, id: usize) -> Seq<usize> {
    if queue.contains(id) {
        queue
    } else {
        queue.push(id)
    }
}

/// `queue` after the first `n` effects of `ids` have been enqueued in order.
pub open spec fn enqueued_all(queue: Seq<usize>, ids: Seq<usize>, n: nat) -> Seq<usize>
    decreases n,
{
    if n == 0 || n > ids.len() {
        queue
    } else {
        enqueued(enqueued_all(queue, ids, (n - 1) as nat), ids[n - 1])
    }
}

/// `subscribers` after a read by `current`: the tracked effect is appended
/// unless there is none or it is subscribed already.
pub open spec fn subscribed(subscribers: Seq<usize>, current: Option<usize>) -> Seq<usize> {
    match current {
        Some(c) => if subscribers.contains(c) {
            subscribers
        } else {
            subscribers.push(c)
        },
        None => subscribers,
    }
}

/// `g` after room has been made for the effect `id`, which is tracked from
/// then on; its body is not attached yet.
pub open spec fn begun_graph<T, E>(g: Graph<T, E>, id: usize) -> Graph<T, E> {
    Graph { bodies: g.bodies.push(None), current: Some(id), ..g }
}

/// `g` after its last pending effect has been taken for a run: the effect
/// has left the queue, its body is detached, and reads are attributed to it.
pub open spec fn taken_graph<T, E>(g: Graph<T, E>) -> Graph<T, E> {
    Graph {
        queue: g.queue.drop_last(),
        bodies: g.bodies.update(g.queue.last() as int, None),
        current: Some(g.queue.last()),
        ..g
    }
}

/// `g` after the run of the effect `id` has ended: `body` is in the effect's
/// slot, and no effect is tracked.
pub open spec fn given_back_graph<T, E>(g: Graph<T, E>, id: usize, body: Option<E>) -> Graph<T, E> {
    Graph { bodies: g.bodies.update(id as int, body), current: None, ..g }
}

/// `g` after the signal `s` has been given the value `new`: the value is
/// overwritten and each subscriber of the signal is pending.
pub open spec fn stored_graph<T, E>(g: Graph<T, E>, s: int, new: T) -> Graph<T, E> {
    Graph {
        values: g.values.update(s, new),
        queue: enqueued_all(g.queue, g.subscribers[s], g.subscribers[s].len()),
        ..g
    }
}

/// `g` while a flush drains its queue.
pub open spec fn flushing_graph<T, E>(g: Graph<T, E>) -> Graph<T, E> {
    Graph { flushing: true, ..g }
}

/// The store of a reactive graph: the values and subscribers of its signals,
/// the bodies of its effects, and the scheduler's state.
pub struct Runtime<T, E> {
    values: Vec<T>,
    subscribers: Vec<Vec<usize>>,
    bodies: Vec<Option<E>>,
    current: Option<usize>,
    queue: Vec<usize>,
    queued: HashSet<usize>,
    flushing: bool,
    flush_limit: usize,
}

impl<T, E> View for Runtime<T, E> {
    type V = Graph<T, E>;

    closed spec fn view(&self) -> Graph<T, E> {
        Graph {
            values: self.values@,
            subscribers: Seq::new(self.subscribers@.len(), |s: int| self.subscribers@[s]@),
            bodies: self.bodies@,
            current: self.current,
            queue: self.queue@,
            flushing: self.flushing,
            flush_limit: self.flush_limit,
        }
    }
}

/// A reactive cell: a handle to one signal of a `Runtime`.
#[derive(Clone, Copy, Debug, PartialEq, Eq)]
pub struct Signal {
    id: usize,
}

impl Signal {
    /// The position of the signal in its graph.
    pub closed spec fn index(&self) -> int {
        self.id as int
    }
}

impl<T, E> Runtime<T, E> {
    /// The set that keeps an effect from being queued twice holds exactly
    /// the pending effects.
    pub closed spec fn dedup_in_sync(&self) -> bool {
        forall|i: usize| #[trigger] self.queued@.contains(i) <==> self.queue@.contains(i)
    }

    /// The graph is well formed and the scheduler's bookkeeping agrees with it.
    pub open spec fn wf(&self) -> bool {
        self@.well_formed() && self.dedup_in_sync()
    }

    /// An empty graph whose flushes are bounded only by the machine.
    pub fn new() -> (rt: Self)
        ensures
            rt.wf(),
            rt@ == (Graph::<T, E> {
                values: Seq::empty(),
                subscribers: Seq::empty(),
                bodies: Seq::empty(),
                current: None,
                queue: Seq::empty(),
                flushing: false,
                flush_limit: usize::MAX,
            }),
    {
        Self::with_flush_limit(usize::MAX)
    }

    /// An empty graph in which one flush runs at most `limit` effects.
    pub fn with_flush_limit(limit: usize) -> (rt: Self)
        ensures
            rt.wf(),
            rt@ == (Graph::<T, E> {
                values: Seq::empty(),
                subscribers: Seq::empty(),
                bodies: Seq::empty(),
                current: None,
                queue: Seq::empty(),
                flushing: false,
                flush_limit: limit,
            }),
    {
        let rt = Runtime {
            values: Vec::new(),
            subscribers: Vec::new(),
            bodies: Vec::new(),
            current: None,
            queue: Vec::new(),
            queued: HashSet::new(),
            flushing: false,
            flush_limit: limit,
        };
        assert(rt@.subscribers =~= Seq::empty());
        rt
    }

    /// The number of signals.
    pub fn signal_count(&self) -> (n: usize)
        ensures
            n == self@.values.len(),
    {
        self.values.len()
    }

    /// The number of effects.
    pub fn effect_count(&self) -> (n: usize)
        ensures
            n == self@.bodies.len(),
    {
        self.bodies.len()
    }

    /// The number of pending effects.
    pub fn pending(&self) -> (n: usize)
        ensures
            n == self@.queue.len(),
    {
        self.queue.len()
    }

    /// The effect to which a signal read is attributed now.
    pub fn current_effect(&self) -> (c: Option<usize>)
        ensures
            c == self@.current,
    {
        self.current
    }

    /// Whether a flush is draining the queue.
    pub fn is_flushing(&self) -> (b: bool)
        ensures
            b == self@.flushing,
    {
        self.flushing
    }

    /// Puts the effect `id` on the queue unless it is pending already.
    pub fn enqueue_effect(&mut self, id: usize)
        requires
            old(self).wf(),
            id < old(self)@.bodies.len(),
        ensures
            final(self).wf(),
            final(self)@ == (Graph { queue: enqueued(old(self)@.queue, id), ..old(self)@ }),
    {
        let ghost before = self@;
        if !self.queued.contains(&id) {
            assert(!self.queue@.contains(id));
            self.queued.insert(id);
            self.queue.push(id);
            proof {
                let q0 = before.queue;
                let q1 = self.queue@;
                assert(q1 == q0.push(id));
                assert forall|i: int, j: int|
                    0 <= i < q1.len() && 0 <= j < q1.len() && i != j implies q1[i] != q1[j] by {
                    if i < q0.len() && j < q0.len() {
                        assert(q0[i] != q0[j]);
                    } else if i < q0.len() {
                        assert(q0.contains(q0[i]));
                    } else {
                        assert(q0.contains(q0[j]));
                    }
                }
                assert forall|i: usize| #[trigger]
                    self.queued@.contains(i) <==> q1.contains(i) by {
                    assert(old(self).queued@.contains(i) <==> q0.contains(i));
                    if i == id {
                        assert(q1[q0.len() as int] == id);
                    } else {
                        if q0.contains(i) {
                            let w = choose|w: int| 0 <= w < q0.len() && q0[w] == i;
                            assert(q1[w] == i);
                        }
                        if q1.contains(i) {
                            let w = choose|w: int| 0 <= w < q1.len() && q1[w] == i;
                            assert(q1[q0.len() as int] == id);
                            assert(w < q0.len());
                            assert(q0[w] == i);
                        }
                    }
                }
                assert(self@.subscribers =~= before.subscribers);
            }
        } else {
            assert(self.queue@.contains(id));
        }
        assert(self@ == (Graph { queue: enqueued(before.queue, id), ..before }));
    }

    /// Makes room for a new effect whose body is not attached yet, and tracks
    /// it: reads are attributed to it until another effect runs.
    pub fn begin_effect(&mut self) -> (id: usize)
        requires
            old(self).wf(),
        ensures
            final(self).wf(),
            id == old(self)@.bodies.len(),
            final(self)@ == begun_graph(old(self)@, id),
    {
        let ghost before = self@;
        let id = self.bodies.len();
        self.bodies.push(None);
        self.current = Some(id);
        proof {
            assert(self@.subscribers =~= before.subscribers);
            assert forall|i: usize| #[trigger]
                self.queued@.contains(i) <==> self.queue@.contains(i) by {
                assert(old(self).queued@.contains(i) <==> old(self).queue@.contains(i));
            }
        }
        id
    }

    /// Takes the next pending effect for a run: the last one enqueued leaves
    /// the queue and may be enqueued again, its body is detached, and reads
    /// are attributed to it. Returns the effect with its body, which is `None`
    /// if the effect is running already; or `None` if nothing is pending.
    pub fn take_next(&mut self) -> (next: Option<(usize, Option<E>)>)
        requires
            old(self).wf(),
        ensures
            final(self).wf(),
            old(self)@.queue.len() == 0 ==> next is None && final(self)@ == old(self)@,
            old(self)@.queue.len() > 0 ==> next == Some(
                (old(self)@.queue.last(), old(self)@.bodies[old(self)@.queue.last() as int]),
            ) && final(self)@ == taken_graph(old(self)@),
    {
        let ghost before = self@;
        match self.queue.pop() {
            None => None,
            Some(id) => {
                assert(before.queue[before.queue.len() - 1] == id);
                self.queued.remove(&id);
                let body = self.bodies[id].take();
                self.current = Some(id);
                proof {
                    let q0 = before.queue;
                    let q1 = self.queue@;
                    assert(q1 == q0.drop_last());
                    assert(self@.subscribers =~= before.subscribers);
                    assert(self@.bodies =~= before.bodies.update(id as int, None));
                    assert forall|i: int| 0 <= i < q1.len() implies #[trigger] q1[i]
                        < self@.bodies.len() by {
                        assert(q0[i] < before.bodies.len());
                    }
                    assert forall|i: int, j: int|
                        0 <= i < q1.len() && 0 <= j < q1.len() && i != j implies q1[i] != q1[j] by {
                        assert(q0[i] != q0[j]);
                    }
                    assert forall|i: usize| #[trigger]
                        self.queued@.contains(i) <==> q1.contains(i) by {
                        assert(old(self).queued@.contains(i) <==> q0.contains(i));
                        if i == id {
                            if q1.contains(i) {
                                let w = choose|w: int| 0 <= w < q1.len() && q1[w] == i;
                                assert(q0[w] != q0[q0.len() - 1]);
                            }
                        } else {
                            if q0.contains(i) {
                                let w = choose|w: int| 0 <= w < q0.len() && q0[w] == i;
                                assert(w < q1.len());
                                assert(q1[w] == i);
                            }
                            if q1.contains(i) {
                                let w = choose|w: int| 0 <= w < q1.len() && q1[w] == i;
                                assert(q0[w] == i);
                            }
                        }
                    }
                }
                Some((id, body))
            },
        }
    }

    /// Ends the run of the effect `id`: no effect is tracked any more, and
    /// `body` takes the place of whatever the effect's slot holds.
    pub fn give_back(&mut self, id: usize, body: Option<E>)
        requires
            old(self).wf(),
            id < old(self)@.bodies.len(),
        ensures
            final(self).wf(),
            final(self)@ == given_back_graph(old(self)@, id, body),
    {
        let ghost before = self@;
        self.current = None;
        self.bodies.set(id, body);
        proof {
            assert(self@.subscribers =~= before.subscribers);
        }
    }
}

impl Signal {
    /// A new signal with the value `initial` and no subscribers.
    pub fn new<T, E>(rt: &mut Runtime<T, E>, initial: T) -> (signal: Signal)
        requires
            old(rt).wf(),
        ensures
            final(rt).wf(),
            signal.index() == old(rt)@.values.len(),
            final(rt)@ == (Graph {
                values: old(rt)@.values.push(initial),
                subscribers: old(rt)@.subscribers.push(Seq::empty()),
                ..old(rt)@
            }),
    {
        let ghost before = rt@;
        let id = rt.values.len();
        rt.values.push(initial);
        rt.subscribers.push(Vec::new());
        proof {
            assert(rt@.subscribers =~= before.subscribers.push(Seq::empty()));
            assert forall|s: int, k: int|
                0 <= s < rt@.subscribers.len() && 0 <= k < rt@.subscribers[s].len()
                    implies #[trigger] rt@.subscribers[s][k] < rt@.bodies.len() by {
                assert(before.subscribers[s][k] < before.bodies.len());
            }
            assert forall|s: int| 0 <= s < rt@.subscribers.len() implies (
            #[trigger] rt@.subscribers[s]).no_duplicates() by {
                if s < before.subscribers.len() {
                    assert(before.subscribers[s].no_duplicates());
                }
            }
        }
        Signal { id }
    }

    /// Whether the signal is one of the graph's, so that it can be read and
    /// set there.
    pub fn belongs_to<T, E>(&self, rt: &Runtime<T, E>) -> (b: bool)
        ensures
            b == (0 <= self.index() < rt@.values.len()),
    {
        self.id < rt.values.len()
    }

    /// The current value. If an effect is tracked, it becomes a subscriber of
    /// the signal, unless it is one already; nothing else changes.
    pub fn get<T: Clone, E>(&self, rt: &mut Runtime<T, E>) -> (value: T)
        requires
            old(rt).wf(),
            0 <= self.index() < old(rt)@.values.len(),
        ensures
            final(rt).wf(),
            cloned(old(rt)@.values[self.index()], value),
            final(rt)@ == (Graph {
                subscribers: old(rt)@.subscribers.update(
                    self.index(),
                    subscribed(old(rt)@.subscribers[self.index()], old(rt)@.current),
                ),
                ..old(rt)@
            }),
    {
        let ghost before = rt@;
        let s = self.id;
        match rt.current {
            Some(c) => {
                let present = contains_id(&rt.subscribers[s], c);
                if !present {
                    let ghost subs0 = rt.subscribers@[s as int]@;
                    let mut list: Vec<usize> = Vec::new();
                    core::mem::swap(&mut list, &mut rt.subscribers[s]);
                    list.push(c);
                    rt.subscribers.set(s, list);
                    proof {
                        let subs1 = subs0.push(c);
                        assert(rt@.subscribers =~= before.subscribers.update(s as int, subs1));
                        assert(before.subscribers[s as int] == subs0);
                        assert forall|i: int, j: int|
                            0 <= i < subs1.len() && 0 <= j < subs1.len() && i != j implies subs1[i]
                                != subs1[j] by {
                            assert(subs0.no_duplicates());
                            if i < subs0.len() && j < subs0.len() {
                                assert(subs0[i] != subs0[j]);
                            } else if i < subs0.len() {
                                assert(subs0.contains(subs0[i]));
                            } else {
                                assert(subs0.contains(subs0[j]));
                            }
                        }
                        assert forall|x: int, k: int|
                            0 <= x < rt@.subscribers.len() && 0 <= k < rt@.subscribers[x].len()
                                implies #[trigger] rt@.subscribers[x][k] < rt@.bodies.len() by {
                            if x == s {
                                if k < subs0.len() {
                                    assert(before.subscribers[x][k] < before.bodies.len());
                                }
                            } else {
                                assert(before.subscribers[x][k] < before.bodies.len());
                            }
                        }
                        assert forall|x: int| 0 <= x < rt@.subscribers.len() implies (
                        #[trigger] rt@.subscribers[x]).no_duplicates() by {
                            if x != s {
                                assert(before.subscribers[x].no_duplicates());
                            }
                        }
                    }
                } else {
                    assert(rt@.subscribers =~= before.subscribers.update(
                        s as int,
                        before.subscribers[s as int],
                    ));
                }
            },
            None => {
                assert(rt@.subscribers =~= before.subscribers.update(
                    s as int,
                    before.subscribers[s as int],
                ));
            },
        }
        rt.values[s].clone()
    }

    /// Overwrites the value and enqueues each subscriber, in the order in
    /// which they subscribed; no effect runs. Inside a running body this is
    /// all that `set` does, since the flush under way runs what is pending.
    pub fn store<T, E>(&self, rt: &mut Runtime<T, E>, new: T)
        requires
            old(rt).wf(),
            0 <= self.index() < old(rt)@.values.len(),
        ensures
            final(rt).wf(),
            final(rt)@ == stored_graph(old(rt)@, self.index(), new),
    {
        let ghost before = rt@;
        let s = self.id;
        rt.values.set(s, new);
        assert(rt@.subscribers =~= before.subscribers);
        let ghost stored = rt@;
        let ghost subs = before.subscribers[s as int];
        let n = rt.subscribers[s].len();
        let mut k: usize = 0;
        while k < n
            invariant
                k <= n,
                n == subs.len(),
                s < rt.subscribers@.len(),
                rt.subscribers@[s as int]@ == subs,
                rt.wf(),
                rt@ == (Graph { queue: enqueued_all(stored.queue, subs, k as nat), ..stored }),
            decreases n - k,
        {
            let id = rt.subscribers[s][k];
            assert(rt@.subscribers[s as int][k as int] < rt@.bodies.len());
            rt.enqueue_effect(id);
            k = k + 1;
        }
    }
}

/// Whether `id` is among `ids`.
fn contains_id(ids: &Vec<usize>, id: usize) -> (found: bool)
    ensures
        found == ids@.contains(id),
{
    let mut i: usize = 0;
    while i < ids.len()
        invariant
            i <= ids@.len(),
            forall|j: int| 0 <= j < i ==> ids@[j] != id,
        decreases ids@.len() - i,
    {
        if ids[i] == id {
            return true;
        }
        i = i + 1;
    }
    false
}

/// The body of an effect: a unit of work that can be run again and again.
/// It reads signals, which subscribes the effect to them, and may set
/// signals and make new signals and effects.
pub trait Effect<T>: Sized {
    /// What one run of the body may do: started in the graph `before`, it
    /// may leave the body as `after_self` and the graph as `after`. A body
    /// that says nothing of its runs keeps this default, under which every
    /// outcome counts.
    open spec fn ran(&self, before: Graph<T, Self>, after_self: Self, after: Graph<T, Self>) -> bool {
        true
    }

    /// Runs the body once, as `ran` says. Whatever it does to the graph, it
    /// leaves it well formed and takes nothing away from it.
    fn run(&mut self, rt: &mut Runtime<T, Self>)
        requires
            old(rt).wf(),
        ensures
            final(rt).wf(),
            final(rt)@.extends(old(rt)@),
            old(self).ran(old(rt)@, *final(self), final(rt)@),
    ;
}

/// One step of a flush leads from `g` to `h`: the last pending effect of `g`
/// is taken, its body runs once, if it is attached, and is given back.
pub open spec fn step_of<T, E: Effect<T>>(g: Graph<T, E>, h: Graph<T, E>) -> bool {
    &&& g.queue.len() > 0
    &&& g.queue.last() < g.bodies.len()
    &&& match g.bodies[g.queue.last() as int] {
        Some(b) => exists|b2: E, mid: Graph<T, E>| #[trigger]
            b.ran(taken_graph(g), b2, mid) && h == given_back_graph(mid, g.queue.last(), Some(b2)),
        None => h == given_back_graph(taken_graph(g), g.queue.last(), None),
    }
}

/// `n` steps of a flush, one after the other, lead from `g` to `h`.
pub open spec fn flushed<T, E: Effect<T>>(g: Graph<T, E>, h: Graph<T, E>, n: nat) -> bool
    decreases n,
{
    if n == 0 {
        g == h
    } else {
        exists|m: Graph<T, E>| #[trigger] step_of(g, m) && flushed(m, h, (n - 1) as nat)
    }
}

/// A flush of `n` steps followed by one more step is a flush of `n + 1`
/// steps.
pub proof fn flushed_then_step<T, E: Effect<T>>(
    g: Graph<T, E>,
    m: Graph<T, E>,
    h: Graph<T, E>,
    n: nat,
)
    requires
        flushed(g, m, n),
        step_of(m, h),
    ensures
        flushed(g, h, n + 1),
    decreases n,
{
    if n == 0 {
        assert(flushed(h, h, 0));
        assert(step_of(g, h));
    } else {
        let x = choose|x: Graph<T, E>| #[trigger] step_of(g, x) && flushed(x, m, (n - 1) as nat);
        flushed_then_step(x, m, h, (n - 1) as nat);
        assert(step_of(g, x) && flushed(x, h, n));
    }
}

impl<T, E: Effect<T>> Runtime<T, E> {
    /// Drains the queue: while an effect is pending and fewer than
    /// `flush_limit` have run, the last one enqueued is taken off, its body is
    /// detached, run with the effect tracked, and attached again. An effect
    /// taken while its body is detached, because it is running, counts as a
    /// run and does nothing. A flush inside a flush returns at once. Returns
    /// the number of effects it took.
    pub fn flush_queue(&mut self) -> (runs: usize)
        requires
            old(self).wf(),
        ensures
            final(self).wf(),
            final(self)@.extends(old(self)@),
            old(self)@.flushing ==> runs == 0 && final(self)@ == old(self)@,
            !old(self)@.flushing ==> flushed(
                flushing_graph(old(self)@),
                flushing_graph(final(self)@),
                runs as nat,
            ),
            !old(self)@.flushing ==> final(self)@.queue.len() == 0 || runs == old(
                self,
            )@.flush_limit,
            runs <= old(self)@.flush_limit,
            runs > 0 ==> final(self)@.current is None,
            runs == 0 ==> final(self)@ == old(self)@,
            old(self)@.queue.len() == 0 ==> runs == 0,
            !old(self)@.flushing && old(self)@.queue.len() > 0 && old(self)@.flush_limit > 0
                ==> runs > 0,
    {
        let ghost before = self@;
        proof {
            extends_is_preorder(before, before, before);
        }
        if self.flushing {
            return 0;
        }
        self.flushing = true;
        assert(self@.subscribers =~= before.subscribers);
        let ghost start = flushing_graph(before);
        assert(self@ == start);
        let limit = self.flush_limit;
        let mut runs: usize = 0;
        while runs < limit && self.queue.len() > 0
            invariant
                self.wf(),
                runs <= limit,
                limit == before.flush_limit,
                self@.flushing,
                self@.flush_limit == limit,
                !before.flushing,
                start == flushing_graph(before),
                self@.extends(start),
                flushed(start, self@, runs as nat),
                runs > 0 ==> self@.current is None,
                runs == 0 ==> self@ == start,
            decreases limit - runs,
        {
            let ghost at_start = self@;
            match self.take_next() {
                None => {},
                Some((id, body)) => {
                    let ghost taken = self@;
                    assert(at_start.queue[at_start.queue.len() - 1] < at_start.bodies.len());
                    assert(taken == taken_graph(at_start));
                    match body {
                        Some(mut b) => {
                            let ghost b0 = b;
                            b.run(self);
                            let ghost ran = self@;
                            self.give_back(id, Some(b));
                            proof {
                                extends_is_preorder(taken, ran, self@);
                                assert(b0.ran(taken_graph(at_start), b, ran));
                                assert(self@ == given_back_graph(ran, id, Some(b)));
                            }
                        },
                        None => {
                            self.give_back(id, None);
                            assert(self@ == given_back_graph(taken, id, None));
                        },
                    }
                    proof {
                        assert(taken.extends(at_start));
                        extends_is_preorder(at_start, taken, self@);
                        extends_is_preorder(start, at_start, self@);
                        assert(step_of(at_start, self@));
                        flushed_then_step(start, at_start, self@, runs as nat);
                    }
                },
            }
            runs = runs + 1;
        }
        let ghost drained = self@;
        self.flushing = false;
        proof {
            assert(self@.subscribers =~= drained.subscribers);
            assert(flushing_graph(self@) == drained);
            if runs == 0 {
                assert(self@ == before);
            }
        }
        runs
    }
}

impl Signal {
    /// Overwrites the value, enqueues each subscriber and flushes: when the
    /// call returns, every effect that it triggered, directly or through
    /// other effects, has run, unless a flush was under way already, which
    /// then runs them, or the flush limit was reached. Returns the number of
    /// effects the flush took.
    pub fn set<T, E: Effect<T>>(&self, rt: &mut Runtime<T, E>, new: T) -> (runs: usize)
        requires
            old(rt).wf(),
            0 <= self.index() < old(rt)@.values.len(),
        ensures
            final(rt).wf(),
            final(rt)@.extends(old(rt)@),
            old(rt)@.flushing ==> runs == 0,
            !old(rt)@.flushing ==> flushed(
                flushing_graph(stored_graph(old(rt)@, self.index(), new)),
                flushing_graph(final(rt)@),
                runs as nat,
            ),
            !old(rt)@.flushing ==> final(rt)@.queue.len() == 0 || runs == old(rt)@.flush_limit,
            runs <= old(rt)@.flush_limit,
            runs > 0 ==> final(rt)@.current is None,
            runs == 0 ==> final(rt)@ == stored_graph(old(rt)@, self.index(), new),
            stored_graph(old(rt)@, self.index(), new).queue.len() == 0 ==> runs == 0,
            !old(rt)@.flushing && stored_graph(old(rt)@, self.index(), new).queue.len() > 0 && old(
                rt,
            )@.flush_limit > 0 ==> runs > 0,
    {
        let ghost before = rt@;
        self.store(rt, new);
        let ghost stored = rt@;
        assert(stored == stored_graph(before, self.index(), new));
        let runs = rt.flush_queue();
        proof {
            assert(stored.extends(before)) by {
                assert forall|s: int| 0 <= s < before.subscribers.len() implies (
                #[trigger] before.subscribers[s]).is_prefix_of(stored.subscribers[s]) by {}
            }
            extends_is_preorder(before, stored, rt@);
        }
        runs
    }
}

/// Makes `body` an effect: it runs once at once, with the new effect tracked,
/// so that every signal it reads gets it as a subscriber; from then on it runs
/// again whenever one of them is set. Returns the effect's identifier, which
/// is the number of effects made before it.
pub fn effect<T, E: Effect<T>>(rt: &mut Runtime<T, E>, body: E) -> (id: usize)
    requires
        old(rt).wf(),
    ensures
        final(rt).wf(),
        final(rt)@.extends(old(rt)@),
        id == old(rt)@.bodies.len(),
        id < final(rt)@.bodies.len(),
        final(rt)@.bodies[id as int] is Some,
        final(rt)@.current is None,
        exists|b: E, mid: Graph<T, E>| #[trigger]
            body.ran(begun_graph(old(rt)@, id), b, mid) && final(rt)@ == given_back_graph(
                mid,
                id,
                Some(b),
            ),
{
    let ghost before = rt@;
    let id = rt.begin_effect();
    let ghost begun = rt@;
    assert(begun == begun_graph(before, id));
    let mut b = body;
    b.run(rt);
    let ghost ran = rt@;
    rt.give_back(id, Some(b));
    proof {
        assert(begun.extends(before)) by {
            assert forall|s: int| 0 <= s < before.subscribers.len() implies (
            #[trigger] before.subscribers[s]).is_prefix_of(begun.subscribers[s]) by {}
        }
        assert(rt@.extends(ran)) by {
            assert forall|s: int| 0 <= s < ran.subscribers.len() implies (
            #[trigger] ran.subscribers[s]).is_prefix_of(rt@.subscribers[s]) by {}
        }
        extends_is_preorder(before, begun, ran);
        extends_is_preorder(before, ran, rt@);
        assert(body.ran(begun_graph(before, id), b, ran) && rt@ == given_back_graph(
            ran,
            id,
            Some(b),
        ));
    }
    id
}

/// A read adds the tracked effect to the subscribers, at the end, unless it
/// is one already: no subscriber leaves or moves, and none is there twice.
pub proof fn subscribing_appends(subscribers: Seq<usize>, current: Option<usize>)
    requires
        subscribers.no_duplicates(),
    ensures
        subscribers.is_prefix_of(subscribed(subscribers, current)),
        subscribed(subscribers, current).no_duplicates(),
        current matches Some(c) ==> subscribed(subscribers, current).contains(c),
        subscribed(subscribed(subscribers, current), current) == subscribed(subscribers, current),
{
    let after = subscribed(subscribers, current);
    match current {
        Some(c) => {
            if subscribers.contains(c) {
            } else {
                assert(after[subscribers.len() as int] == c);
                assert forall|i: int, j: int|
                    0 <= i < after.len() && 0 <= j < after.len() && i != j implies after[i]
                        != after[j] by {
                    if i < subscribers.len() && j < subscribers.len() {
                        assert(subscribers[i] != subscribers[j]);
                    } else if i < subscribers.len() {
                        assert(subscribers.contains(subscribers[i]));
                    } else {
                        assert(subscribers.contains(subscribers[j]));
                    }
                }
            }
        },
        None => {},
    }
}

/// Enqueueing an effect makes it pending, once: the pending effects before
/// it keep their places, and none is pending twice.
pub proof fn enqueueing_dedups(queue: Seq<usize>, id: usize)
    requires
        queue.no_duplicates(),
    ensures
        queue.is_prefix_of(enqueued(queue, id)),
        enqueued(queue, id).no_duplicates(),
        enqueued(queue, id).contains(id),
        enqueued(enqueued(queue, id), id) == enqueued(queue, id),
{
    let after = enqueued(queue, id);
    if queue.contains(id) {
    } else {
        assert(after[queue.len() as int] == id);
        assert forall|i: int, j: int|
            0 <= i < after.len() && 0 <= j < after.len() && i != j implies after[i] != after[j] by {
            if i < queue.len() && j < queue.len() {
                assert(queue[i] != queue[j]);
            } else if i < queue.len() {
                assert(queue.contains(queue[i]));
            } else {
                assert(queue.contains(queue[j]));
            }
        }
    }
}

/// Enqueueing the first `n` effects of `ids` makes each of them pending: the
/// effects pending before keep their places, none is pending twice, and
/// nothing else becomes pending.
pub proof fn enqueueing_all_holds_each(queue: Seq<usize>, ids: Seq<usize>, n: nat)
    requires
        queue.no_duplicates(),
        n <= ids.len(),
    ensures
        queue.is_prefix_of(enqueued_all(queue, ids, n)),
        enqueued_all(queue, ids, n).no_duplicates(),
        forall|i: int| 0 <= i < n ==> enqueued_all(queue, ids, n).contains(#[trigger] ids[i]),
        forall|x: usize|
            enqueued_all(queue, ids, n).contains(x) ==> queue.contains(x) || ids.take(
                n as int,
            ).contains(x),
    decreases n,
{
    if n > 0 {
        let m = (n - 1) as nat;
        let rest = enqueued_all(queue, ids, m);
        let out = enqueued_all(queue, ids, n);
        let id = ids[n - 1];
        enqueueing_all_holds_each(queue, ids, m);
        enqueueing_dedups(rest, id);
        assert(out == enqueued(rest, id));
        assert forall|i: int| 0 <= i < n implies out.contains(#[trigger] ids[i]) by {
            if i < m {
                let w = choose|w: int| 0 <= w < rest.len() && rest[w] == ids[i];
                assert(out[w] == ids[i]);
            }
        }
        assert forall|x: usize| out.contains(x) implies queue.contains(x) || ids.take(
            n as int,
        ).contains(x) by {
            let w = choose|w: int| 0 <= w < out.len() && out[w] == x;
            if w < rest.len() {
                assert(rest[w] == x);
                assert(rest.contains(x));
                if !queue.contains(x) {
                    let k = choose|k: int| 0 <= k < ids.take(m as int).len() && ids.take(m as int)[k] == x;
                    assert(ids.take(n as int)[k] == x);
                }
            } else {
                assert(x == id);
                assert(ids.take(n as int)[n - 1] == x);
            }
        }
    }
}

} // verus!
