use velox::dom::{h, text, Props};
use velox::layout::{
    compute_layout, parse_int, parse_px, style_box_sides, style_lookup, style_lookup_len,
    LayoutNode, Rect,
};

/// What a percentage of a base length is, rounded to whole pixels.
fn percent(p: &str, base: i32) -> Option<i32> {
    match p.trim().parse::<f32>() {
        Ok(pct) => Some(((pct / 100.0) * base as f32).round() as i32),
        Err(_) => None,
    }
}

fn chars(s: &str) -> Vec<char> {
    s.chars().collect()
}

#[test]
fn block_stacks_children_and_uses_style_size() {
    let root = h(
        "div",
        Props::new().set("style", "width: 300px; height: 100px;"),
        vec![text("hello"), text("world")],
    );
    let lt = compute_layout(&root, 800, 600, &percent);
    assert_eq!(lt.rect, Rect { x: 0, y: 0, w: 300, h: 100 });
    assert_eq!(lt.children.len(), 2);
    assert_eq!(lt.children[0].rect.y, 0);
    assert!(lt.children[1].rect.y >= lt.children[0].rect.h);
}

fn leaf(x: i32, y: i32, w: i32, h: i32) -> LayoutNode {
    LayoutNode { rect: Rect { x, y, w, h }, children: vec![] }
}

#[test]
fn block_layout_is_exact() {
    let root = h(
        "div",
        Props::new().set("style", "margin: 10px; margin-left: 4; padding: 2px; padding-top:5px"),
        vec![
            text("  héllo "),
            h("p", Props::new().set("style", "height: 30px; margin-bottom: 7px; width: 50%"), vec![]),
            text(""),
        ],
    );
    let lt = compute_layout(&root, 200, 100, &percent);
    assert_eq!(
        lt,
        LayoutNode {
            rect: Rect { x: 4, y: 10, w: 200, h: 71 },
            children: vec![leaf(6, 15, 48, 16), leaf(6, 31, 98, 30), leaf(6, 68, 8, 16)],
        }
    );
}

#[test]
fn flex_layouts_are_exact() {
    let row = h(
        "div",
        Props::new().set("style", "display: flex; gap: 5px"),
        vec![
            text("ab"),
            h("i", Props::new().set("style", "width: 10px; height: 3px; margin-top: 9px"), vec![text("x")]),
            text("c"),
        ],
    );
    let lt = compute_layout(&row, 100, 40, &percent);
    assert_eq!(
        lt,
        LayoutNode {
            rect: Rect { x: 0, y: 0, w: 100, h: 16 },
            children: vec![
                leaf(0, 0, 16, 16),
                LayoutNode {
                    rect: Rect { x: 21, y: 0, w: 10, h: 3 },
                    children: vec![leaf(21, 9, 8, 16)]
                },
                leaf(36, 0, 8, 16),
            ],
        }
    );
    let column = h(
        "div",
        Props::new().set("style", "display:flex;flex-direction: column ;gap:5"),
        vec![text("ab"), text("c")],
    );
    let lt = compute_layout(&column, 100, 40, &percent);
    assert_eq!(
        lt,
        LayoutNode {
            rect: Rect { x: 0, y: 0, w: 100, h: 37 },
            children: vec![leaf(0, 0, 16, 16), leaf(0, 21, 8, 16)],
        }
    );
    assert_eq!(lt.clone(), lt);
}

#[test]
fn numbers_and_lengths_are_parsed_as_whole_numbers() {
    assert_eq!(parse_int(&chars("42")), Some(42));
    assert_eq!(parse_int(&chars("-0007")), Some(-7));
    assert_eq!(parse_int(&chars("+5")), Some(5));
    assert_eq!(parse_int(&chars("2147483647")), Some(i32::MAX));
    assert_eq!(parse_int(&chars("-2147483648")), Some(i32::MIN));
    assert_eq!(parse_int(&chars("2147483648")), None);
    assert_eq!(parse_int(&chars("-2147483649")), None);
    assert_eq!(parse_int(&chars("99999999999999999999999")), None);
    for bad in ["", "-", "+", "1.5", " 1", "1a", "--1", "١"] {
        assert_eq!(parse_int(&chars(bad)), None, "{bad:?}");
        assert_eq!(bad.parse::<i32>().ok(), None);
    }
    assert_eq!(parse_px(&chars(" 12px ")), Some(12));
    assert_eq!(parse_px(&chars("12 px")), Some(12));
    assert_eq!(parse_px(&chars("-3")), Some(-3));
    assert_eq!(parse_px(&chars("px")), None);
    assert_eq!(parse_px(&chars("1em")), None);
}

#[test]
fn style_lookups_take_the_first_declaration() {
    let style = Some("a: 1px; b : x; a: 2px; w: 50%; q: 5 %; z: zz%");
    assert_eq!(style_lookup(style, "a"), Some(1));
    assert_eq!(style_lookup(style, "b"), None);
    assert_eq!(style_lookup(style, "c"), None);
    assert_eq!(style_lookup(None, "a"), None);
    assert_eq!(style_lookup_len(style, "w", 30, &percent), Some(15));
    assert_eq!(style_lookup_len(style, "q", 30, &percent), Some(2));
    assert_eq!(style_lookup_len(style, "z", 30, &percent), None);
    assert_eq!(style_lookup_len(style, "a", 30, &percent), Some(1));
    assert_eq!(style_lookup_len(None, "a", 30, &percent), None);
    assert_eq!(
        style_box_sides(Some("margin: 3px; margin-top: 1px; margin-right: x"), "margin"),
        (3, 3, 1, 3)
    );
    assert_eq!(style_box_sides(Some("padding-left: 2px"), "padding"), (2, 0, 0, 0));
    assert_eq!(style_box_sides(None, "margin"), (0, 0, 0, 0));
}

#[test]
fn sums_wrap_around() {
    let root = h("div", Props::new().set("style", "margin-left: 2147483647px"), vec![text("a")]);
    let lt = compute_layout(&root, 10, 10, &percent);
    assert_eq!(lt.rect.x, i32::MAX);
    let lt = at_one(&root);
    assert_eq!(lt.rect.x, i32::MAX);
}

fn at_one(root: &velox::dom::VNode) -> LayoutNode {
    let outer = h(
        "div",
        Props::new().set("style", "padding-left: 1px"),
        vec![root.clone()],
    );
    let lt = compute_layout(&outer, 10, 10, &percent);
    assert_eq!(lt.children[0].rect.x, i32::MIN);
    compute_layout(root, 10, 10, &percent)
}
