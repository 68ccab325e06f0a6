use std::cell::RefCell as StdRefCell;
use std::rc::Rc;
use velox::signal::{effect, Effect, Runtime, Signal};

/// An effect that copies a signal into a shared cell and counts its runs.
struct Observe {
    count: Signal,
    observed: Rc<StdRefCell<i32>>,
    runs: Rc<StdRefCell<usize>>,
}

impl Effect<i32> for Observe {
    fn run(&mut self, rt: &mut Runtime<i32, Self>) {
        *self.observed.borrow_mut() = self.count.get(rt);
        *self.runs.borrow_mut() += 1;
    }
}

#[test]
fn test_signal_and_effect() {
    let mut rt: Runtime<i32, Observe> = Runtime::new();
    let count = Signal::new(&mut rt, 0);
    let observed = Rc::new(StdRefCell::new(0));
    let runs = Rc::new(StdRefCell::new(0));

    effect(
        &mut rt,
        Observe { count, observed: observed.clone(), runs: runs.clone() },
    );

    // Initial effect run should have written 0
    assert_eq!(*observed.borrow(), 0);

    // This set should notify the effect again
    count.set(&mut rt, 42);
    assert_eq!(*observed.borrow(), 42);
}

#[test]
fn effect_runs_once_at_creation_and_once_per_set() {
    let mut rt: Runtime<i32, Observe> = Runtime::new();
    let count = Signal::new(&mut rt, 0);
    let observed = Rc::new(StdRefCell::new(-1));
    let runs = Rc::new(StdRefCell::new(0));

    let id = effect(
        &mut rt,
        Observe { count, observed: observed.clone(), runs: runs.clone() },
    );
    assert_eq!(id, 0);
    assert_eq!(*runs.borrow(), 1);
    assert_eq!(rt.effect_count(), 1);
    assert_eq!(rt.current_effect(), None);

    let taken = count.set(&mut rt, 1);
    assert_eq!(taken, 1);
    assert_eq!(*runs.borrow(), 2);
    assert_eq!(*observed.borrow(), 1);
    assert_eq!(rt.pending(), 0);
    assert!(!rt.is_flushing());
}

#[test]
fn reading_twice_subscribes_once() {
    struct Twice {
        s: Signal,
        runs: Rc<StdRefCell<usize>>,
    }
    impl Effect<i32> for Twice {
        fn run(&mut self, rt: &mut Runtime<i32, Self>) {
            let _ = self.s.get(rt);
            let _ = self.s.get(rt);
            *self.runs.borrow_mut() += 1;
        }
    }
    let mut rt: Runtime<i32, Twice> = Runtime::new();
    let s = Signal::new(&mut rt, 7);
    let runs = Rc::new(StdRefCell::new(0));
    effect(&mut rt, Twice { s, runs: runs.clone() });
    assert_eq!(*runs.borrow(), 1);
    assert_eq!(s.set(&mut rt, 8), 1);
    assert_eq!(*runs.borrow(), 2);
}

#[test]
fn get_outside_an_effect_only_reads() {
    let mut rt: Runtime<i32, Observe> = Runtime::new();
    let s = Signal::new(&mut rt, 5);
    assert_eq!(s.get(&mut rt), 5);
    assert_eq!(rt.signal_count(), 1);
    // Nobody subscribed, so a set runs nothing.
    assert_eq!(s.set(&mut rt, 6), 0);
    assert_eq!(s.get(&mut rt), 6);
}

#[test]
fn store_enqueues_without_running_and_flush_is_last_in_first_out() {
    struct Log {
        s: Signal,
        tag: usize,
        log: Rc<StdRefCell<Vec<usize>>>,
    }
    impl Effect<i32> for Log {
        fn run(&mut self, rt: &mut Runtime<i32, Self>) {
            let _ = self.s.get(rt);
            self.log.borrow_mut().push(self.tag);
        }
    }
    let mut rt: Runtime<i32, Log> = Runtime::new();
    let s = Signal::new(&mut rt, 0);
    let log = Rc::new(StdRefCell::new(Vec::new()));
    effect(&mut rt, Log { s, tag: 0, log: log.clone() });
    effect(&mut rt, Log { s, tag: 1, log: log.clone() });
    assert_eq!(&*log.borrow(), &vec![0, 1]);
    log.borrow_mut().clear();

    s.store(&mut rt, 1);
    assert_eq!(rt.pending(), 2);
    assert!(log.borrow().is_empty());
    // Storing again does not enqueue an effect twice.
    s.store(&mut rt, 2);
    assert_eq!(rt.pending(), 2);

    assert_eq!(rt.flush_queue(), 2);
    assert_eq!(&*log.borrow(), &vec![1, 0]);
    assert_eq!(rt.pending(), 0);
}

#[test]
fn flush_limit_stops_an_effect_that_always_triggers_itself() {
    struct Loop {
        s: Signal,
        runs: Rc<StdRefCell<usize>>,
    }
    impl Effect<i32> for Loop {
        fn run(&mut self, rt: &mut Runtime<i32, Self>) {
            let v = self.s.get(rt);
            *self.runs.borrow_mut() += 1;
            if *self.runs.borrow() > 1 {
                self.s.set(rt, v + 1);
            }
        }
    }
    let mut rt: Runtime<i32, Loop> = Runtime::with_flush_limit(10);
    let s = Signal::new(&mut rt, 0);
    let runs = Rc::new(StdRefCell::new(0));
    effect(&mut rt, Loop { s, runs: runs.clone() });
    assert_eq!(*runs.borrow(), 1);
    let taken = s.set(&mut rt, 1);
    assert_eq!(taken, 10);
    assert_eq!(*runs.borrow(), 11);
    assert_eq!(rt.pending(), 1);
    assert!(!rt.is_flushing());
}

#[test]
fn take_next_and_give_back_step_through_a_run() {
    let mut rt: Runtime<i32, Observe> = Runtime::new();
    let count = Signal::new(&mut rt, 0);
    let observed = Rc::new(StdRefCell::new(0));
    let runs = Rc::new(StdRefCell::new(0));
    let id = effect(
        &mut rt,
        Observe { count, observed: observed.clone(), runs: runs.clone() },
    );
    assert!(rt.take_next().is_none());
    rt.enqueue_effect(id);
    rt.enqueue_effect(id);
    assert_eq!(rt.pending(), 1);
    let (taken, body) = rt.take_next().unwrap();
    assert_eq!(taken, id);
    assert!(body.is_some());
    assert_eq!(rt.current_effect(), Some(id));
    assert_eq!(rt.pending(), 0);
    rt.give_back(taken, body);
    assert_eq!(rt.current_effect(), None);
}

#[test]
fn a_signal_belongs_to_the_graph_that_made_it() {
    let mut rt: Runtime<i32, Observe> = Runtime::new();
    let other: Runtime<i32, Observe> = Runtime::new();
    let count = Signal::new(&mut rt, 0);
    assert!(count.belongs_to(&rt));
    assert!(!count.belongs_to(&other));
}

#[test]
fn a_set_without_subscribers_stores_and_runs_nothing() {
    let mut rt: Runtime<i32, Observe> = Runtime::new();
    let a = Signal::new(&mut rt, 0);
    let b = Signal::new(&mut rt, 7);
    assert_eq!(a.set(&mut rt, 5), 0);
    assert_eq!(a.get(&mut rt), 5);
    assert_eq!(b.get(&mut rt), 7);
    assert_eq!(rt.pending(), 0);
}
