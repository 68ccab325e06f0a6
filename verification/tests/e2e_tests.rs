use std::cell::RefCell;
use std::rc::Rc;

use velox::diff::{diff, Patch};
use velox::dom::{h, text, Props, VNode};
use velox::renderer::{new_selected_renderer, Renderer};
use velox::signal::{effect, Effect, Runtime, Signal};
use velox::style::{apply_styles, Stylesheet};

fn view(count: i32) -> VNode {
    h(
        "div",
        Props::new().set("class", "app"),
        vec![text(&format!("{}", count))],
    )
}

/// Rebuilds the styled tree from the count.
struct Render {
    count: Signal,
    sheet: Stylesheet,
    current: Rc<RefCell<VNode>>,
}

impl Effect<i32> for Render {
    fn run(&mut self, rt: &mut Runtime<i32, Self>) {
        let v = view(self.count.get(rt));
        let styled = apply_styles(&v, &self.sheet);
        *self.current.borrow_mut() = styled;
    }
}

#[test]
fn end_to_end_reactive_updates_and_mount() {
    // Model
    let mut rt: Runtime<i32, Render> = Runtime::new();
    let count = Signal::new(&mut rt, 0);

    // Style sheet
    let ss = Stylesheet::parse(".app { color: red; }");

    // Current VNode tree stored in a cell, recomputed from signals via effect
    let current: Rc<RefCell<VNode>> = Rc::new(RefCell::new(apply_styles(&view(0), &ss)));

    effect(&mut rt, Render { count, sheet: ss, current: current.clone() });

    // Initial tree should reflect 0 and carry style
    if let VNode::Element { props, children, .. } = &*current.borrow() {
        assert_eq!(props.get("class").unwrap(), "app");
        assert!(props.get("style").unwrap().contains("color: red;"));
        assert!(matches!(children[0], VNode::Text(_)));
    } else {
        panic!("expected element");
    }

    // Mount returns a summary tree (in-memory)
    let r = new_selected_renderer();
    let mounted = r.mount(&current.borrow());
    assert_eq!(mounted.node_count, 2);
    assert_eq!(mounted.text_count, 1);

    // Update signal; diff old vs new shows Replace for text child
    let before = current.borrow().clone();
    count.set(&mut rt, 1);
    let after = current.borrow().clone();
    let patches = match (&before, &after) {
        (VNode::Element { children: a, .. }, VNode::Element { children: b, .. }) => {
            diff(&a[0], &b[0])
        }
        _ => panic!("expected element children"),
    };
    assert!(patches.iter().any(|p| matches!(p, Patch::Replace(_))));
}

#[test]
fn a_set_is_observed_before_it_returns() {
    struct Copy {
        s: Signal,
        observed: Rc<RefCell<i32>>,
    }
    impl Effect<i32> for Copy {
        fn run(&mut self, rt: &mut Runtime<i32, Self>) {
            *self.observed.borrow_mut() = self.s.get(rt);
        }
    }
    let mut rt: Runtime<i32, Copy> = Runtime::new();
    let s = Signal::new(&mut rt, 0);
    let observed = Rc::new(RefCell::new(-1));
    effect(&mut rt, Copy { s, observed: observed.clone() });
    assert_eq!(*observed.borrow(), 0);
    s.set(&mut rt, 42);
    assert_eq!(*observed.borrow(), 42);
}
