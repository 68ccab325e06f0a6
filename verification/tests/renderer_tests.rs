use velox::dom::{h, text, Props, VNode};
use velox::renderer::{
    backend_name, build_render_tree, new_selected_renderer, reconcile_keyed_children, summarize,
    Renderer, SkiaRenderer, WgpuRenderer,
};

#[test]
fn mount_counts_nodes_and_texts() {
    let vnode = h(
        "div",
        Props::new().set("class", "app"),
        vec![text("hi"), h("span", Props::new(), vec![text("there")])],
    );
    let r = new_selected_renderer();
    let tree = r.mount(&vnode);
    assert_eq!(tree.node_count, 4, "div + text + span + text");
    assert_eq!(tree.text_count, 2);
}

#[test]
fn selected_renderer_matches_backend_const() {
    let r = new_selected_renderer();
    assert_eq!(r.backend_name(), backend_name());
}

#[test]
fn each_backend_reports_its_name() {
    assert_eq!(backend_name(), "stub");
    assert_eq!(WgpuRenderer.backend_name(), "wgpu");
    assert_eq!(SkiaRenderer.backend_name(), "skia");
    velox::renderer::init();
}

#[test]
fn summarize_adds_to_the_counts() {
    let mut counts = (10, 3);
    summarize(&h("p", Props::new(), vec![text("a"), text("b")]), &mut counts);
    assert_eq!(counts, (13, 5));
    let tree = build_render_tree(&text("x"));
    assert_eq!((tree.node_count, tree.text_count), (1, 1));
    assert_eq!(tree.root, text("x"));
}

// Simple test to ensure `reconcile_keyed_children` reorders and prefers
// reusing old nodes when the `key` prop matches. We encode a `uid`
// attribute on old nodes so reused nodes keep that uid after reconciliation.
#[test]
fn reconcile_reorders_and_reuses_by_key() {
    // old children: a(uid=old-a), b(uid=old-b), c(uid=old-c)
    let mut old: Vec<VNode> = vec![
        h("li", vec![("key", "a"), ("uid", "old-a")].into(), vec![text("A")]),
        h("li", vec![("key", "b"), ("uid", "old-b")].into(), vec![text("B")]),
        h("li", vec![("key", "c"), ("uid", "old-c")].into(), vec![text("C")]),
    ];

    // new children: b, a, d (b and a should be reused from `old`, d is new)
    let new: Vec<VNode> = vec![
        h("li", vec![("key", "b")].into(), vec![text("B2")]),
        h("li", vec![("key", "a")].into(), vec![text("A2")]),
        h("li", vec![("key", "d")].into(), vec![text("D")]),
    ];

    reconcile_keyed_children(&mut old, &new);

    // Expect old to be reordered to match new's key order
    assert_eq!(old.len(), 3);

    // old[0] should be the previously-existing node with key "b" (uid old-b)
    match &old[0] {
        VNode::Element { props, children, .. } => {
            assert_eq!(props.get("key").map(|s| s.as_str()), Some("b"));
            assert_eq!(props.get("uid").map(|s| s.as_str()), Some("old-b"));
            // since we reused the old node, its child text is still "B"
            assert!(matches!(children.get(0), Some(VNode::Text(t)) if t == "B"));
        }
        _ => panic!("expected element at old[0]"),
    }

    // old[1] should be the previously-existing node with key "a"
    match &old[1] {
        VNode::Element { props, .. } => {
            assert_eq!(props.get("key").map(|s| s.as_str()), Some("a"));
            assert_eq!(props.get("uid").map(|s| s.as_str()), Some("old-a"));
        }
        _ => panic!("expected element at old[1]"),
    }

    // old[2] is the new node with key "d" and has no uid
    match &old[2] {
        VNode::Element { props, .. } => {
            assert_eq!(props.get("key").map(|s| s.as_str()), Some("d"));
            assert!(props.get("uid").is_none());
        }
        _ => panic!("expected element at old[2]"),
    }
}

#[test]
fn reconcile_takes_the_last_old_node_with_a_key_and_keeps_unkeyed_nodes() {
    let mut old: Vec<VNode> = vec![
        h("li", vec![("key", "a"), ("uid", "first")].into(), vec![]),
        h("li", vec![("key", "a"), ("uid", "second")].into(), vec![]),
    ];
    let new: Vec<VNode> = vec![
        text("plain"),
        h("li", vec![("key", "a")].into(), vec![]),
        h("li", Props::new(), vec![]),
        h("li", vec![("key", "a")].into(), vec![]),
    ];
    reconcile_keyed_children(&mut old, &new);
    assert_eq!(old.len(), 4);
    assert_eq!(old[0], text("plain"));
    assert_eq!(old[1], h("li", vec![("key", "a"), ("uid", "second")].into(), vec![]));
    assert_eq!(old[2], h("li", Props::new(), vec![]));
    assert_eq!(old[3], old[1]);
}

#[test]
fn the_stub_backend_has_no_raster() {
    let sheet = velox::style::Stylesheet::parse("");
    assert_eq!(
        velox::renderer::render_vnode_to_raster_png(&text("x"), &sheet, 4, 4),
        Err("skia-native feature not enabled".to_string())
    );
    assert_eq!(
        velox::renderer::create_window_surface(4, 4).err(),
        Some("skia-native feature not enabled".to_string())
    );
}
