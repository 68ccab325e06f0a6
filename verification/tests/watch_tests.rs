use std::cell::RefCell as StdRefCell;
use std::rc::Rc;

use velox::signal::{Runtime, Signal};
use velox::watch::{observe, watch, Callback, Source, Watch};

/// Reads one signal.
struct Read(Signal);

impl<C> Source<i32, Watch<Read, C, i32>, i32> for Read {
    fn eval(&mut self, rt: &mut Runtime<i32, Watch<Read, C, i32>>) -> i32 {
        self.0.get(rt)
    }
}

/// Records each call.
struct Record(Rc<StdRefCell<Vec<(i32, i32)>>>);

impl Callback<i32, Watch<Read, Record, i32>, i32> for Record {
    fn call(&mut self, _rt: &mut Runtime<i32, Watch<Read, Record, i32>>, new: &i32, old: &i32) {
        self.0.borrow_mut().push((*new, *old));
    }
}

/// Records the new value and sets the signal to the next one below three.
struct Climb {
    count: Signal,
    seen: Rc<StdRefCell<Vec<i32>>>,
}

impl Callback<i32, Watch<Read, Climb, i32>, i32> for Climb {
    fn call(&mut self, rt: &mut Runtime<i32, Watch<Read, Climb, i32>>, new: &i32, _old: &i32) {
        self.seen.borrow_mut().push(*new);
        // Mutate inside callback to ensure no borrow/move conflicts
        if *new < 3 {
            self.count.set(rt, *new + 1);
        }
    }
}

/// Records the new value and stores the next one below three, leaving the
/// flush under way to run what that makes pending.
struct ClimbByStore {
    count: Signal,
    seen: Vec<i32>,
}

impl Callback<i32, Watch<Read, ClimbByStore, i32>, i32> for ClimbByStore {
    fn call(
        &mut self,
        rt: &mut Runtime<i32, Watch<Read, ClimbByStore, i32>>,
        new: &i32,
        _old: &i32,
    ) {
        self.seen.push(*new);
        if *new < 3 {
            self.count.store(rt, *new + 1);
        }
    }
}

#[test]
fn a_callback_that_stores_converges_in_three_runs() {
    let mut rt: Runtime<i32, Watch<Read, ClimbByStore, i32>> = Runtime::new();
    let count = Signal::new(&mut rt, 0);
    let id = watch(&mut rt, Read(count), ClimbByStore { count, seen: vec![] });
    assert_eq!(id, 0);
    assert_eq!(count.set(&mut rt, 1), 3);
    assert_eq!(count.get(&mut rt), 3);
    assert_eq!(rt.pending(), 0);
}

#[test]
fn watch_triggers_on_change_only() {
    let mut rt: Runtime<i32, Watch<Read, Record, i32>> = Runtime::new();
    let count = Signal::new(&mut rt, 0);
    let events: Rc<StdRefCell<Vec<(i32, i32)>>> = Rc::new(StdRefCell::new(vec![]));

    watch(&mut rt, Read(count), Record(events.clone()));

    // No callback on initial run
    assert!(events.borrow().is_empty());

    count.set(&mut rt, 1);
    assert_eq!(&*events.borrow(), &vec![(1, 0)]);

    // Setting the same value shouldn't trigger
    count.set(&mut rt, 1);
    assert_eq!(&*events.borrow(), &vec![(1, 0)]);

    // Change again
    count.set(&mut rt, 2);
    assert_eq!(&*events.borrow(), &vec![(1, 0), (2, 1)]);
}

#[test]
fn watch_callback_can_mutate_signals() {
    let mut rt: Runtime<i32, Watch<Read, Climb, i32>> = Runtime::new();
    let count = Signal::new(&mut rt, 0);
    let seen: Rc<StdRefCell<Vec<i32>>> = Rc::new(StdRefCell::new(vec![]));

    watch(&mut rt, Read(count), Climb { count, seen: seen.clone() });

    // Kick off the chain
    count.set(&mut rt, 1);

    // We should see 1, then 2, then 3 (as the callback increments)
    assert_eq!(&*seen.borrow(), &vec![1, 2, 3]);
    assert_eq!(count.get(&mut rt), 3);
}

#[test]
fn observe_keeps_the_baseline_and_reports_changes() {
    let mut retained: Option<i32> = None;
    assert_eq!(observe(&mut retained, 0), None);
    assert_eq!(retained, Some(0));
    assert_eq!(observe(&mut retained, 0), None);
    assert_eq!(retained, Some(0));
    assert_eq!(observe(&mut retained, 5), Some((5, 0)));
    assert_eq!(retained, Some(5));
    assert_eq!(observe(&mut retained, 5), None);
    assert_eq!(observe(&mut retained, 4), Some((4, 5)));
    assert_eq!(retained, Some(4));
}
