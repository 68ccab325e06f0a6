use std::cell::RefCell;
use std::rc::Rc;

use velox::dom::{h, text, Props};
use velox::events::{collect_targets, dispatch, EventRegistry, Handler, Runtime};
use velox::renderer::{new_selected_renderer, Renderer};

/// Adds one to a shared counter.
struct Count(Rc<RefCell<i32>>);

impl Handler for Count {
    fn call(&mut self) {
        *self.0.borrow_mut() += 1;
    }
}

#[test]
fn dispatch_invokes_registered_callback() {
    // Build VNode tree with on:click handler name "inc"
    let vnode = h("button", Props::new().set("on:click", "inc"), vec![text("+1")]);
    let r = new_selected_renderer();
    let tree = r.mount(&vnode);

    let count = Rc::new(RefCell::new(0));
    let mut reg = EventRegistry::new();
    reg.on("inc", Count(count.clone()));

    let n = dispatch("click", &tree, &mut reg);
    assert_eq!(n, 1);
    assert_eq!(*count.borrow(), 1);
}

#[test]
fn dispatch_handles_multiple_targets() {
    let vnode = h(
        "div",
        Props::new(),
        vec![
            h("button", Props::new().set("on:click", "inc"), vec![]),
            h("button", Props::new().set("on:click", "inc"), vec![]),
        ],
    );
    let r = new_selected_renderer();
    let tree = r.mount(&vnode);

    let count = Rc::new(RefCell::new(0));
    let mut reg = EventRegistry::new();
    reg.on("inc", Count(count.clone()));
    let n = dispatch("click", &tree, &mut reg);
    assert_eq!(n, 2);
    assert_eq!(*count.borrow(), 2);
}

#[test]
fn runtime_click_and_dblclick_and_hover() {
    // Build a simple tree with handlers
    let vnode = h(
        "div",
        Props::new()
            .set("on:click", "inc")
            .set("on:dblclick", "boom")
            .set("on:hover", "hov"),
        vec![text("ok")],
    );
    let r = new_selected_renderer();
    let tree = r.mount(&vnode);
    let mut rt = Runtime::new(tree);

    let clicks = Rc::new(RefCell::new(0));
    let dbls = Rc::new(RefCell::new(0));
    let hovs = Rc::new(RefCell::new(0));

    rt.registry.on("inc", Count(clicks.clone()));
    rt.registry.on("boom", Count(dbls.clone()));
    rt.registry.on("hov", Count(hovs.clone()));

    // First click
    let n = rt.mouse_click(1_000);
    assert_eq!(n, 1);
    assert_eq!(*clicks.borrow(), 1);

    // Second quick click -> dblclick
    let n = rt.mouse_click(1_001);
    assert!(n >= 1);
    assert_eq!(*dbls.borrow(), 1);

    // Hover fires once until reset
    let n = rt.cursor_moved();
    assert_eq!(n, 1);
    assert_eq!(*hovs.borrow(), 1);
    let n2 = rt.cursor_moved();
    assert_eq!(n2, 0);
    rt.reset_hover();
    let n3 = rt.cursor_moved();
    assert_eq!(n3, 1);
}

#[test]
fn double_click_needs_the_second_click_within_the_window() {
    let vnode = h(
        "div",
        Props::new().set("on:click", "inc").set("on:dblclick", "boom"),
        vec![],
    );
    let tree = new_selected_renderer().mount(&vnode);
    let mut rt = Runtime::new(tree);
    let clicks = Rc::new(RefCell::new(0));
    let dbls = Rc::new(RefCell::new(0));
    rt.registry.on("inc", Count(clicks.clone()));
    rt.registry.on("boom", Count(dbls.clone()));

    rt.mouse_click(0);
    rt.mouse_click(401);
    assert_eq!((*clicks.borrow(), *dbls.borrow()), (2, 0));
    assert_eq!(rt.last_click, Some(401));
    rt.mouse_click(801);
    assert_eq!((*clicks.borrow(), *dbls.borrow()), (2, 1));
    assert_eq!(rt.last_click, None);
    // After a double click the next click starts anew.
    rt.mouse_click(802);
    assert_eq!((*clicks.borrow(), *dbls.borrow()), (3, 1));
}

#[test]
fn registry_on_replaces_and_remove_forgets() {
    let a = Rc::new(RefCell::new(0));
    let b = Rc::new(RefCell::new(0));
    let mut reg = EventRegistry::new();
    assert!(!reg.has("x"));
    reg.on("x", Count(a.clone()));
    reg.on("x", Count(b.clone()));
    assert!(reg.has("x"));
    assert!(reg.call("x"));
    assert_eq!((*a.borrow(), *b.borrow()), (0, 1));
    reg.remove("x");
    assert!(!reg.has("x"));
    assert!(!reg.call("x"));
    reg.remove("x");
}

#[test]
fn targets_come_in_document_order_and_unregistered_names_are_skipped() {
    let vnode = h(
        "div",
        Props::new().set("on:click", "outer"),
        vec![
            h("a", Props::new().set("on:click", "first"), vec![text("t")]),
            h("b", Props::new().set("on:hover", "other"), vec![]),
            h("c", Props::new().set("on:click", "second"), vec![]),
        ],
    );
    let mut out = vec!["kept".to_string()];
    collect_targets(&vnode, "on:click", &mut out);
    assert_eq!(out, vec!["kept", "outer", "first", "second"]);

    let tree = new_selected_renderer().mount(&vnode);
    let count = Rc::new(RefCell::new(0));
    let mut reg = EventRegistry::new();
    reg.on("second", Count(count.clone()));
    assert_eq!(dispatch("click", &tree, &mut reg), 1);
    assert_eq!(dispatch("hover", &tree, &mut reg), 0);
}
