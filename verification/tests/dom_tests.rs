use velox::dom::{h, text, Props, VNode};

#[test]
fn build_tree() {
    let node = h(
        "div",
        vec![("class", "app")].into(),
        vec![text("hello"), h("span", ().into(), vec![text("world")])],
    );
    if let VNode::Element { tag, props, children } = node {
        assert_eq!(tag, "div");
        assert_eq!(props.get("class").unwrap(), "app");
        assert_eq!(children.len(), 2);
    } else {
        panic!("expected element");
    }
}

#[test]
fn props_set_overwrites_and_keeps_keys_unique() {
    let p = Props::new().set("a", "1").set("b", "2").set("a", "3");
    assert_eq!(p.len(), 2);
    assert_eq!(p.key_at(0), "a");
    assert_eq!(p.value_at(0), "3");
    assert_eq!(p.get("b").unwrap(), "2");
    assert!(p.get("c").is_none());
    assert!(p.contains_key("a"));
    assert!(!p.contains_key("c"));
}

#[test]
fn props_equality_ignores_order() {
    let p = Props::new().set("a", "1").set("b", "2");
    let q = Props::new().set("b", "2").set("a", "1");
    let r = Props::new().set("a", "1").set("b", "3");
    let s = Props::new().set("a", "1");
    assert_eq!(p, q);
    assert_ne!(p, r);
    assert_ne!(p, s);
    assert_ne!(s, p);
    assert_eq!(p.clone(), p);
}

#[test]
fn from_pairs_lets_a_later_pair_win() {
    let p: Props = vec![("k", "1"), ("k", "2")].into();
    assert_eq!(p.len(), 1);
    assert_eq!(p.get("k").unwrap(), "2");
}

#[test]
fn clone_is_structurally_equal() {
    let node = h(
        "ul",
        Props::new().set("id", "x"),
        vec![h("li", Props::new(), vec![text("a")]), text("b")],
    );
    assert_eq!(node.clone(), node);
}
