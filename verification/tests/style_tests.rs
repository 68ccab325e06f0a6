use velox::dom::{h, text, Props, VNode};
use velox::style::{
    apply_styles, apply_styles_with_hover, class_listed, matches_selector, merge_styles,
    SimpleSelector, SimpleSelectorKind, Stylesheet,
};

#[test]
fn hover_selector_applies_conditionally() {
    let css = r#"
div:hover { color: blue; }
.btn:hover { background: yellow; }
"#;
    let ss = Stylesheet::parse(css);
    let vnode = h("div", Props::new().set("class", "btn"), vec![text("x")]);

    // Not hovered
    let styled = apply_styles_with_hover(&vnode, &ss, &|_, _| false);
    if let VNode::Element { props, .. } = styled {
        assert!(props.get("style").is_none());
    }

    // Hovered
    let styled2 = apply_styles_with_hover(&vnode, &ss, &|tag, _| tag == "div");
    if let VNode::Element { props, .. } = styled2 {
        let style = props.get("style").unwrap();
        assert!(style.contains("color: blue;"));
        assert!(style.contains("background: yellow;"));
    } else {
        panic!("expected element");
    }
}

#[test]
fn applies_tag_and_class_rules() {
    let css = r#"
div { color: red; }
.btn { font-weight: bold; }
"#;
    let ss = Stylesheet::parse(css);

    let vnode = h(
        "div",
        Props::new().set("class", "btn container"),
        vec![text("Click")],
    );

    let styled = apply_styles(&vnode, &ss);
    match styled {
        VNode::Element { props, .. } => {
            let style = props.get("style").expect("style present");
            // Both declarations applied
            assert!(style.contains("color: red;"));
            assert!(style.contains("font-weight: bold;"));
        }
        _ => panic!("expected element"),
    }
}

#[test]
fn class_overrides_tag_for_same_prop() {
    let css = r#"
div { color: blue; }
.btn { color: red; }
"#;
    let ss = Stylesheet::parse(css);
    let vnode = h("div", Props::new().set("class", "btn"), vec![]);
    let styled = apply_styles(&vnode, &ss);
    if let VNode::Element { props, .. } = styled {
        let style = props.get("style").unwrap();
        // Our simple merger creates deterministic order by key; just assert final value
        assert!(style.contains("color: red;"));
    } else {
        panic!("expected element");
    }
}

#[test]
fn children_receive_styles_recursively() {
    let css = r#"span { color: green; }"#;
    let ss = Stylesheet::parse(css);
    let vnode = h("div", Props::new(), vec![h("span", Props::new(), vec![])]);
    let styled = apply_styles(&vnode, &ss);
    if let VNode::Element { children, .. } = styled {
        if let VNode::Element { props, .. } = &children[0] {
            let style = props.get("style").unwrap();
            assert!(style.contains("color: green;"));
        } else {
            panic!("expected span element");
        }
    } else {
        panic!("expected div element");
    }
}

#[test]
fn parses_color_and_fontsize_from_style_string() {
    let css = ".app { background: #101216; color: #e6edf3; font-size: 18px; }";
    let ss = Stylesheet::parse(css);
    assert_eq!(ss.rules.len(), 1);
}

#[test]
fn parse_reads_selectors_and_declarations_exactly() {
    let ss = Stylesheet::parse(" p { a : 1 ; b:2;; a: 3 } .x y :hover { k: v } junk } q { } r { nocolon } s:visited{z:0}");
    assert_eq!(ss.rules.len(), 3);
    assert_eq!(
        ss.rules[0].selector,
        SimpleSelector { kind: SimpleSelectorKind::Tag, name: "p".into(), hover: false }
    );
    assert_eq!(ss.rules[0].decls, Props::new().set("a", "3").set("b", "2"));
    assert_eq!(
        ss.rules[1].selector,
        SimpleSelector { kind: SimpleSelectorKind::Class, name: "x y".into(), hover: true }
    );
    assert_eq!(
        ss.rules[2].selector,
        SimpleSelector { kind: SimpleSelectorKind::Tag, name: "s".into(), hover: false }
    );
    assert_eq!(Stylesheet::parse("").rules.len(), 0);
    assert_eq!(Stylesheet::parse("no braces at all").rules.len(), 0);
}

#[test]
fn merge_styles_orders_by_key_and_lets_the_rules_override() {
    let rules = Props::new().set("color", "red").set("b", "2");
    assert_eq!(
        merge_styles(Some("z: 9; color: blue ;a:1"), &rules),
        "a: 1; b: 2; color: red; z: 9;"
    );
    assert_eq!(merge_styles(None, &rules), "b: 2; color: red;");
    assert_eq!(merge_styles(None, &Props::new()), "");
    assert_eq!(merge_styles(Some("ab: 1; a: 2; B: 3"), &Props::new()), "B: 3; a: 2; ab: 1;");
}

#[test]
fn selectors_match_tags_and_whole_class_words() {
    let tag = SimpleSelector { kind: SimpleSelectorKind::Tag, name: "div".into(), hover: false };
    let class = SimpleSelector { kind: SimpleSelectorKind::Class, name: "btn".into(), hover: false };
    let hover = SimpleSelector { kind: SimpleSelectorKind::Tag, name: "div".into(), hover: true };
    assert!(matches_selector(&tag, "div", None, false));
    assert!(!matches_selector(&tag, "span", Some("div"), false));
    assert!(matches_selector(&class, "x", Some("a btn\tc"), false));
    assert!(matches_selector(&class, "x", Some("  btn"), false));
    assert!(!matches_selector(&class, "x", Some("btns a-btn"), false));
    assert!(!matches_selector(&class, "x", None, false));
    assert!(!matches_selector(&hover, "div", None, false));
    assert!(matches_selector(&hover, "div", None, true));
    let chars = |s: &str| s.chars().collect::<Vec<char>>();
    assert!(!class_listed(&chars("a b"), &chars("a b")));
    assert!(!class_listed(&chars(""), &chars("")));
    assert!(class_listed(&chars("a\u{3000}b"), &chars("b")));
}

#[test]
fn children_inherit_only_text_properties() {
    let ss = Stylesheet::parse("div { color: red; margin: 4px; } span { margin: 1px; }");
    let vnode = h(
        "div",
        Props::new(),
        vec![h("span", Props::new(), vec![h("i", Props::new(), vec![])]), text("t")],
    );
    let styled = apply_styles(&vnode, &ss);
    let expected = h(
        "div",
        Props::new().set("style", "color: red; margin: 4px;"),
        vec![
            h(
                "span",
                Props::new().set("style", "color: red; margin: 1px;"),
                vec![h("i", Props::new().set("style", "color: red;"), vec![])],
            ),
            text("t"),
        ],
    );
    assert_eq!(styled, expected);
}
