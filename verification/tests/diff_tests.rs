use velox::diff::{diff, diff_children, diff_props, Patch};
use velox::dom::{h, text, Props};

#[test]
fn props_set_and_remove() {
    let a = h("div", vec![("class", "a"), ("id", "x")].into(), vec![]);
    let b = h("div", vec![("class", "b")].into(), vec![]);

    let patches = diff(&a, &b);

    assert!(patches.contains(&Patch::SetAttr("class".into(), "b".into())));
    assert!(patches.contains(&Patch::RemoveAttr("id".into())));
}

#[test]
fn insert_child() {
    let a = h("ul", Props::new(), vec![]);
    let b = h("ul", Props::new(), vec![text("item")]);

    let patches = diff(&a, &b);

    assert_eq!(patches, vec![Patch::InsertChild(0, text("item"))]);
}

#[test]
fn remove_child() {
    let a = h("ul", Props::new(), vec![text("a"), text("b")]);
    let b = h("ul", Props::new(), vec![text("a")]);

    let patches = diff(&a, &b);

    // expect removal of index 1
    assert!(patches.contains(&Patch::RemoveChild(1)));
}

#[test]
fn replace_on_tag_change() {
    let a = h("div", Props::new(), vec![]);
    let b = h("span", Props::new(), vec![]);

    let patches = diff(&a, &b);
    assert_eq!(patches, vec![Patch::Replace(b.clone())]);
}

#[test]
fn text_change_replaces() {
    let a = text("hello");
    let b = text("world");
    let patches = diff(&a, &b);
    assert_eq!(patches, vec![Patch::Replace(b.clone())]);
}

#[test]
fn diff_of_a_clone_is_empty() {
    let x = h(
        "div",
        vec![("class", "a"), ("id", "x")].into(),
        vec![text("t"), h("span", Props::new().set("k", "v"), vec![text("u")])],
    );
    assert_eq!(diff(&x, &x.clone()), vec![]);
    assert_eq!(diff(&text("same"), &text("same")), vec![]);
    // The order of the attributes does not matter.
    let y = h(
        "div",
        vec![("id", "x"), ("class", "a")].into(),
        vec![text("t"), h("span", Props::new().set("k", "v"), vec![text("u")])],
    );
    assert_eq!(diff(&x, &y), vec![]);
}

#[test]
fn kind_change_replaces() {
    let e = h("div", Props::new(), vec![text("x")]);
    let t = text("x");
    assert_eq!(diff(&e, &t), vec![Patch::Replace(t.clone())]);
    assert_eq!(diff(&t, &e), vec![Patch::Replace(e.clone())]);
}

#[test]
fn attribute_delta() {
    let a = Props::new().set("a", "1").set("b", "2");
    let b = Props::new().set("a", "1").set("c", "3");
    let patches = diff_props(&a, &b);
    assert_eq!(patches.len(), 2);
    assert!(patches.contains(&Patch::SetAttr("c".into(), "3".into())));
    assert!(patches.contains(&Patch::RemoveAttr("b".into())));
    // What is set comes before what is removed.
    assert_eq!(
        patches,
        vec![Patch::SetAttr("c".into(), "3".into()), Patch::RemoveAttr("b".into())]
    );
}

#[test]
fn child_count_delta_ordering() {
    let two = vec![text("a"), text("b")];
    let four = vec![text("a"), text("b"), text("c"), text("d")];
    assert_eq!(
        diff_children(&two, &four),
        vec![Patch::InsertChild(2, text("c")), Patch::InsertChild(3, text("d"))]
    );
    assert_eq!(
        diff_children(&four, &two),
        vec![Patch::RemoveChild(3), Patch::RemoveChild(2)]
    );
}

#[test]
fn changed_children_are_updated_in_place() {
    let a = h(
        "ul",
        Props::new().set("id", "l"),
        vec![text("same"), h("li", Props::new(), vec![text("x")]), text("gone")],
    );
    let b = h(
        "ul",
        Props::new().set("id", "m"),
        vec![text("same"), h("li", Props::new().set("k", "v"), vec![text("y")])],
    );
    assert_eq!(
        diff(&a, &b),
        vec![
            Patch::SetAttr("id".into(), "m".into()),
            Patch::UpdateChild(
                1,
                vec![
                    Patch::SetAttr("k".into(), "v".into()),
                    Patch::UpdateChild(0, vec![Patch::Replace(text("y"))]),
                ]
            ),
            Patch::RemoveChild(2),
        ]
    );
    let cloned = velox::diff::clone_patches(&diff(&a, &b));
    assert_eq!(cloned, diff(&a, &b));
}
