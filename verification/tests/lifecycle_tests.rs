use std::cell::RefCell as StdRefCell;
use std::rc::Rc;
use velox::lifecycle::{
    before_destroy, on_mounted, run_destroy_hooks, run_mounted_hooks, Hook, Hooks,
};

/// Writes a value into a shared cell.
struct Write(Rc<StdRefCell<i32>>, i32);

impl Hook<Vec<i32>> for Write {
    fn run(self, log: &mut Vec<i32>) {
        *self.0.borrow_mut() = self.1;
        log.push(self.1);
    }
}

#[test]
fn test_mounted_and_destroy_hooks() {
    // Wrap counters so hooks can own clones
    let v1 = Rc::new(StdRefCell::new(0));
    let v2 = Rc::new(StdRefCell::new(0));
    let mut hooks: Hooks<Write> = Hooks::new();

    on_mounted(&mut hooks, Write(v1.clone(), 1));
    before_destroy(&mut hooks, Write(v2.clone(), 2));

    // Execute the queued hooks
    let mut log = Vec::new();
    run_mounted_hooks(&mut hooks, &mut log);
    run_destroy_hooks(&mut hooks, &mut log);

    // Verify they ran
    assert_eq!(*v1.borrow(), 1);
    assert_eq!(*v2.borrow(), 2);
}

#[test]
fn hooks_run_in_order_and_once() {
    let v = Rc::new(StdRefCell::new(0));
    let mut hooks: Hooks<Write> = Hooks::new();
    on_mounted(&mut hooks, Write(v.clone(), 1));
    on_mounted(&mut hooks, Write(v.clone(), 2));
    let mut log = Vec::new();
    assert_eq!(run_destroy_hooks(&mut hooks, &mut log), 0);
    assert_eq!(*v.borrow(), 0);
    assert!(log.is_empty());
    assert_eq!(run_mounted_hooks(&mut hooks, &mut log), 2);
    assert_eq!(*v.borrow(), 2);
    assert_eq!(log, vec![1, 2]);
    assert_eq!(run_mounted_hooks(&mut hooks, &mut log), 0);
    assert_eq!(log, vec![1, 2]);
}
