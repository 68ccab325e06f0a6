//! A small block and flex layout: each node of a tree gets a rectangle.

use crate::dom::{lookup, views, NodeView, VNode};
use crate::text::{
    chars_of, copy_range, pieces, same, split, split_first, split_once, string_of, trim, trimmed,
};
use vstd::prelude::*;

verus! {

/// A rectangle: the left and top edge, the width and the height.
#[derive(Debug, Clone, Copy, PartialEq, Eq, Structural)]
pub struct Rect {
    pub x: i32,
    pub y: i32,
    pub w: i32,
    pub h: i32,
}

/// The rectangle of a node, with the layouts of its children.
#[derive(Debug, PartialEq)]
pub struct LayoutNode {
    pub rect: Rect,
    pub children: Vec<LayoutNode>,
}

/// A layout as the contracts see it.
pub struct LayoutView {
    pub rect: Rect,
    pub children: Seq<LayoutView>,
}

/// The views of the layouts of `nodes`, in order.
pub open spec fn layout_views(nodes: Seq<LayoutNode>) -> Seq<LayoutView>
    decreases nodes,
{
    Seq::new(
        nodes.len(),
        |i: int|
            if 0 <= i < nodes.len() {
                nodes[i].view()
            } else {
                LayoutView { rect: Rect { x: 0, y: 0, w: 0, h: 0 }, children: Seq::empty() }
            },
    )
}

impl View for LayoutNode {
    type V = LayoutView;

    open spec fn view(&self) -> LayoutView
        decreases self,
    {
        LayoutView { rect: self.rect, children: layout_views(self.children@) }
    }
}

/// A copy of each layout of `nodes`, in order.
pub fn clone_layouts(nodes: &Vec<LayoutNode>) -> (r: Vec<LayoutNode>)
    ensures
        layout_views(r@) == layout_views(nodes@),
    decreases nodes,
{
    let mut out: Vec<LayoutNode> = Vec::new();
    let mut i: usize = 0;
    while i < nodes.len()
        invariant
            i <= nodes@.len(),
            out@.len() == i,
            forall|j: int| 0 <= j < i ==> (#[trigger] out@[j])@ == nodes@[j]@,
        decreases nodes@.len() - i,
    {
        out.push(nodes[i].clone());
        i = i + 1;
    }
    assert(layout_views(out@) =~= layout_views(nodes@));
    out
}

impl Clone for LayoutNode {
    fn clone(&self) -> (r: LayoutNode)
        ensures
            r@ == self@,
        decreases self,
    {
        LayoutNode { rect: self.rect, children: clone_layouts(&self.children) }
    }
}

/// The number that the first `n` characters of `s` write in decimal, where
/// they are digits.
pub open spec fn digits_value(s: Seq<char>, n: nat) -> int
    decreases n,
{
    if n == 0 || n > s.len() {
        0
    } else {
        10 * digits_value(s, (n - 1) as nat) + (s[n - 1] as u32 - '0' as u32)
    }
}

/// Every character of `s` from `from` on is a digit.
pub open spec fn all_digits(s: Seq<char>, from: int) -> bool {
    forall|i: int| from <= i < s.len() ==> '0' <= #[trigger] s[i] <= '9'
}

/// The number that `s` writes: an optional sign and at least one digit,
/// nothing else, and a value that a 32-bit integer holds.
pub open spec fn int_of(s: Seq<char>) -> Option<i32> {
    let signed = s.len() > 0 && (s[0] == '-' || s[0] == '+');
    let body = if signed {
        s.subrange(1, s.len() as int)
    } else {
        s
    };
    if body.len() == 0 || !all_digits(body, 0) {
        None
    } else {
        let v = digits_value(body, body.len());
        let r = if signed && s[0] == '-' {
            -v
        } else {
            v
        };
        if i32::MIN <= r <= i32::MAX {
            Some(r as i32)
        } else {
            None
        }
    }
}

/// The value of a decimal number only grows with more digits.
proof fn digits_value_grows(s: Seq<char>, m: nat, n: nat)
    requires
        all_digits(s, 0),
        m <= n <= s.len(),
    ensures
        0 <= digits_value(s, m) <= digits_value(s, n),
    decreases n,
{
    if n == 0 {
    } else if m < n {
        digits_value_grows(s, m, (n - 1) as nat);
        assert('0' <= s[n - 1] <= '9');
    } else {
        if m > 0 {
            digits_value_grows(s, (m - 1) as nat, (n - 1) as nat);
            assert('0' <= s[n - 1] <= '9');
        }
    }
}

/// The number that `v` writes.
#[verifier::loop_isolation(false)]
pub fn parse_int(v: &Vec<char>) -> (r: Option<i32>)
    ensures
        r == int_of(v@),
{
    let n = v.len();
    if n == 0 {
        return None;
    }
    let signed = v[0] == '-' || v[0] == '+';
    let negative = v[0] == '-';
    let body = if signed {
        copy_range(v, 1, n)
    } else {
        copy_range(v, 0, n)
    };
    assert(v@.subrange(0, n as int) =~= v@);
    if body.len() == 0 {
        return None;
    }
    let mut acc: i64 = 0;
    let mut i: usize = 0;
    while i < body.len()
        invariant
            i <= body@.len(),
            forall|j: int| 0 <= j < i ==> '0' <= #[trigger] body@[j] <= '9',
            acc == digits_value(body@, i as nat),
            0 <= acc <= 0x8000_0000,
        decreases body@.len() - i,
    {
        let c = body[i];
        if !('0' <= c && c <= '9') {
            assert(!all_digits(body@, 0)) by {
                if all_digits(body@, 0) {
                    assert('0' <= body@[i as int] <= '9');
                }
            }
            return None;
        }
        let d = (c as u32 - '0' as u32) as i64;
        acc = acc * 10 + d;
        assert(acc == digits_value(body@, (i + 1) as nat));
        if acc > 0x8000_0000 {
            proof {
                if all_digits(body@, 0) {
                    digits_value_grows(body@, (i + 1) as nat, body@.len());
                }
            }
            return None;
        }
        i = i + 1;
    }
    assert(all_digits(body@, 0));
    if negative {
        Some((-acc) as i32)
    } else if acc <= 0x7fff_ffff {
        Some(acc as i32)
    } else {
        None
    }
}

/// Whether `s` ends with `px`.
pub open spec fn ends_with_px(s: Seq<char>) -> bool {
    s.len() >= 2 && s[s.len() - 2] == 'p' && s[s.len() - 1] == 'x'
}

/// The length in pixels that `s` writes: a number, with or without `px`
/// behind it, white space around either disregarded.
pub open spec fn px_of(s: Seq<char>) -> Option<i32> {
    let t = trimmed(s);
    if ends_with_px(t) {
        int_of(trimmed(t.subrange(0, t.len() - 2)))
    } else {
        int_of(t)
    }
}

/// The length in pixels that `s` writes.
pub fn parse_px(s: &Vec<char>) -> (r: Option<i32>)
    ensures
        r == px_of(s@),
{
    let t = trim(s);
    let n = t.len();
    if n >= 2 && t[n - 2] == 'p' && t[n - 1] == 'x' {
        parse_int(&trim(&copy_range(&t, 0, n - 2)))
    } else {
        parse_int(&t)
    }
}

/// The value of the first declaration of `key` among the declarations from
/// `i` on, as it is written.
pub open spec fn declared_from(parts: Seq<Seq<char>>, key: Seq<char>, i: int) -> Option<Seq<char>>
    decreases parts.len() - i,
{
    if 0 <= i < parts.len() {
        let d = trimmed(parts[i]);
        match split_first(d, ':') {
            Some((k, v)) => if d.len() > 0 && trimmed(k) == key {
                Some(v)
            } else {
                declared_from(parts, key, i + 1)
            },
            None => declared_from(parts, key, i + 1),
        }
    } else {
        None
    }
}

/// The value of the first declaration of `key` in the style `style`, as it
/// is written.
pub open spec fn declared(style: Option<Seq<char>>, key: Seq<char>) -> Option<Seq<char>> {
    match style {
        Some(s) => declared_from(pieces(s, ';'), key, 0),
        None => None,
    }
}

/// The value of the first declaration of `key` in `style`.
#[verifier::loop_isolation(false)]
fn find_decl(style: Option<&str>, key: &str) -> (r: Option<Vec<char>>)
    ensures
        match r {
            Some(v) => declared(opt_view(style), key@) == Some(v@),
            None => declared(opt_view(style), key@).is_none(),
        },
{
    let s = match style {
        Some(s) => s,
        None => {
            return None;
        },
    };
    let text = chars_of(s);
    let parts = split(&text, ';');
    let wanted = chars_of(key);
    let ghost specs = pieces(s@, ';');
    let mut i: usize = 0;
    while i < parts.len()
        invariant
            i <= parts@.len(),
            parts@.len() == specs.len(),
            forall|j: int| 0 <= j < parts@.len() ==> (#[trigger] parts@[j])@ == specs[j],
            wanted@ == key@,
            declared_from(specs, key@, i as int) == declared_from(specs, key@, 0),
        decreases parts@.len() - i,
    {
        assert(parts@[i as int]@ == specs[i as int]);
        let d = trim(&parts[i]);
        if d.len() > 0 {
            match split_once(&d, ':') {
                Some((k, v)) => {
                    if same(&trim(&k), &wanted) {
                        assert(declared_from(specs, key@, i as int) == Some(v@));
                        return Some(v);
                    }
                },
                None => {},
            }
        }
        i = i + 1;
    }
    None
}

/// The view of an optional string.
pub open spec fn opt_view(s: Option<&str>) -> Option<Seq<char>> {
    match s {
        Some(t) => Some(t@),
        None => None,
    }
}

/// The length in pixels that the style declares for `key`.
pub open spec fn length_of(style: Option<Seq<char>>, key: Seq<char>) -> Option<i32> {
    match declared(style, key) {
        Some(v) => px_of(v),
        None => None,
    }
}

/// The length in pixels that the style declares for `key`.
pub fn style_lookup(style: Option<&str>, key: &str) -> (r: Option<i32>)
    ensures
        r == length_of(opt_view(style), key@),
{
    match find_decl(style, key) {
        Some(v) => parse_px(&v),
        None => None,
    }
}

/// What `f` makes of the percentage `p` of `base`, if `f` can make
/// something of it.
pub open spec fn percent_by<F: Fn(&str, i32) -> Option<i32>>(f: F) -> spec_fn(
    Seq<char>,
    i32,
) -> Option<i32> {
    |p: Seq<char>, base: i32|
        if exists|t: &str, r: Option<i32>| t@ == p && #[trigger] call_ensures(f, (t, base), r) {
            (choose|t: &str, r: Option<i32>| t@ == p && #[trigger] call_ensures(f, (t, base), r)).1
        } else {
            None
        }
}

/// `f` can be asked of every percentage and base, and what it answers
/// depends on the characters of the percentage and on the base alone.
pub open spec fn resolves_by_view<F: Fn(&str, i32) -> Option<i32>>(f: F) -> bool {
    &&& forall|t: &str, base: i32| call_requires(f, (t, base))
    &&& forall|t: &str, base: i32, r: Option<i32>| #[trigger]
        call_ensures(f, (t, base), r) ==> r == percent_by(f)(t@, base)
}

/// The length that the style declares for `key`, where a percentage counts
/// of `base`: a value that ends with `%` is what `percent` makes of the text
/// before the sign; where it makes nothing of it, and for any other value,
/// the length in pixels that the value writes.
pub open spec fn length_or_percent(
    style: Option<Seq<char>>,
    key: Seq<char>,
    base: i32,
    percent: spec_fn(Seq<char>, i32) -> Option<i32>,
) -> Option<i32> {
    match declared(style, key) {
        Some(v) => {
            let val = trimmed(v);
            if val.len() > 0 && val.last() == '%' && percent(val.drop_last(), base) is Some {
                percent(val.drop_last(), base)
            } else {
                px_of(val)
            }
        },
        None => None,
    }
}

/// The length that the style declares for `key`, where a percentage counts
/// of `base`.
pub fn style_lookup_len<F: Fn(&str, i32) -> Option<i32>>(
    style: Option<&str>,
    key: &str,
    base: i32,
    percent: &F,
) -> (r: Option<i32>)
    requires
        resolves_by_view(*percent),
    ensures
        r == length_or_percent(opt_view(style), key@, base, percent_by(*percent)),
{
    match find_decl(style, key) {
        Some(v) => {
            let val = trim(&v);
            let n = val.len();
            if n > 0 && val[n - 1] == '%' {
                let p = crate::text::string_of_range(&val, 0, n - 1);
                assert(val@.subrange(0, n - 1) =~= val@.drop_last());
                let got = percent(p.as_str(), base);
                if got.is_some() {
                    return got;
                }
            }
            parse_px(&val)
        },
        None => None,
    }
}

/// The four sides of a box: left, right, top and bottom.
pub open spec fn box_sides(style: Option<Seq<char>>, base: Seq<char>) -> (i32, i32, i32, i32) {
    let style = match style {
        Some(s) => Some(s),
        None => Some(Seq::empty()),
    };
    let all = match length_of(style, base) {
        Some(v) => v,
        None => 0i32,
    };
    (
        side(style, base + "-left"@, all),
        side(style, base + "-right"@, all),
        side(style, base + "-top"@, all),
        side(style, base + "-bottom"@, all),
    )
}

/// The length that the style declares for `key`, or `all`.
pub open spec fn side(style: Option<Seq<char>>, key: Seq<char>, all: i32) -> i32 {
    match length_of(style, key) {
        Some(v) => v,
        None => all,
    }
}

/// The length that `style` declares for `base` and `suffix`, or `all`.
fn side_of(style: &str, base: &str, suffix: &str, all: i32) -> (r: i32)
    ensures
        r == side(Some(style@), base@ + suffix@, all),
{
    let mut key = String::from_str(base);
    key.append(suffix);
    match style_lookup(Some(style), key.as_str()) {
        Some(v) => v,
        None => all,
    }
}

/// The four sides of the box `base` (`margin`, `padding`) that the style
/// declares: left, right, top and bottom. A side that is not declared by its
/// own name has what is declared for all four, and nothing if that is not
/// declared either.
pub fn style_box_sides(style: Option<&str>, base: &str) -> (r: (i32, i32, i32, i32))
    ensures
        r == box_sides(opt_view(style), base@),
{
    proof {
        reveal_strlit("");
        assert(""@ =~= Seq::<char>::empty());
    }
    let s: &str = match style {
        Some(s) => s,
        None => "",
    };
    let all = match style_lookup(Some(s), base) {
        Some(v) => v,
        None => 0,
    };
    (
        side_of(s, base, "-left", all),
        side_of(s, base, "-right", all),
        side_of(s, base, "-top", all),
        side_of(s, base, "-bottom", all),
    )
}

/// How an element lays out its children.
#[derive(Debug, Clone, Copy, PartialEq, Eq, Structural)]
pub enum Flow {
    /// One below the other, each followed by its bottom margin.
    Block,
    /// One below the other, with the gap between two.
    Column,
    /// One beside the other, with the gap between two, all at the top.
    Row,
}

/// How an element with the style `style` lays out its children: a `display`
/// of `flex` makes a row, or a column if the `flex-direction` is `column`;
/// any other makes a block.
pub open spec fn flow_of(style: Option<Seq<char>>) -> Flow {
    let display = match declared(style, "display"@) {
        Some(v) => trimmed(v),
        None => "block"@,
    };
    let direction = match declared(style, "flex-direction"@) {
        Some(v) => trimmed(v),
        None => "row"@,
    };
    if display == "flex"@ {
        if direction == "column"@ {
            Flow::Column
        } else {
            Flow::Row
        }
    } else {
        Flow::Block
    }
}

/// The greater of two numbers.
pub open spec fn max32(a: i32, b: i32) -> i32 {
    if a >= b {
        a
    } else {
        b
    }
}

/// The `style` attribute of an element; a text has none.
pub open spec fn style_of(node: NodeView) -> Option<Seq<char>> {
    match node {
        NodeView::Element { attrs, .. } => lookup(attrs, "style"@),
        NodeView::Text(_) => None,
    }
}

/// The width of a text: eight for each byte of the text without the white
/// space around it, and eight for an empty one.
pub open spec fn text_width(t: Seq<char>) -> i32 {
    max32((vstd::utf8::encode_utf8(trimmed(t)).len() as usize) as i32, 1).wrapping_mul(8)
}

/// Where the child `k` is placed, `prev` being the layouts of the children
/// before it: the first at the start of the content box; in a block, each
/// other below the one before it and its bottom margin; in a column, below
/// the one before it and the gap; in a row, beside the one before it and the
/// gap.
pub open spec fn child_origin(
    prev: Seq<LayoutView>,
    kids: Seq<NodeView>,
    k: int,
    flow: Flow,
    cx: i32,
    cy: i32,
    gap: i32,
) -> (i32, i32) {
    if k <= 0 || prev.len() == 0 || k > kids.len() {
        (cx, cy)
    } else {
        let last = prev.last().rect;
        match flow {
            Flow::Block => (
                cx,
                last.y.wrapping_add(last.h).wrapping_add(box_sides(style_of(kids[k - 1]), "margin"@).3),
            ),
            Flow::Column => (cx, last.y.wrapping_add(last.h).wrapping_add(gap)),
            Flow::Row => (last.x.wrapping_add(last.w).wrapping_add(gap), cy),
        }
    }
}

/// The layouts of the first `n` children.
pub open spec fn laid_children(
    kids: Seq<NodeView>,
    n: nat,
    flow: Flow,
    cx: i32,
    cy: i32,
    cw: i32,
    ch: i32,
    gap: i32,
    percent: spec_fn(Seq<char>, i32) -> Option<i32>,
) -> Seq<LayoutView>
    decreases kids, n,
{
    if n == 0 || n > kids.len() {
        Seq::empty()
    } else {
        let prev = laid_children(kids, (n - 1) as nat, flow, cx, cy, cw, ch, gap, percent);
        let at = child_origin(prev, kids, n - 1, flow, cx, cy, gap);
        prev.push(placed(kids[n - 1], at.0, at.1, cw, ch, percent))
    }
}

/// The layouts `kids`, each moved to the top edge `y`.
pub open spec fn aligned_top(kids: Seq<LayoutView>, y: i32) -> Seq<LayoutView> {
    Seq::new(
        kids.len(),
        |i: int|
            LayoutView {
                rect: Rect { x: kids[i].rect.x, y, w: kids[i].rect.w, h: kids[i].rect.h },
                children: kids[i].children,
            },
    )
}

/// A length or, where there is none, another.
pub open spec fn or_else(length: Option<i32>, other: i32) -> i32 {
    match length {
        Some(v) => v,
        None => other,
    }
}

/// The layout of the node placed at `x`, `y` with `avail_w` by `avail_h` at
/// its disposal. Sums and differences are those of 32-bit machine numbers.
///
/// A text is 16 high and as wide as `text_width` says. An element stands
/// inside its margin; its width is the declared one, or all that is at its
/// disposal; its children are laid out inside its padding as its flow says;
/// its height is the declared one, or reaches from its top padding to the
/// bottom of its last child, plus the bottom padding.
pub open spec fn placed(
    node: NodeView,
    x: i32,
    y: i32,
    avail_w: i32,
    avail_h: i32,
    percent: spec_fn(Seq<char>, i32) -> Option<i32>,
) -> LayoutView
    decreases node, 0nat,
{
    match node {
        NodeView::Text(t) => LayoutView {
            rect: Rect { x, y, w: text_width(t), h: 16 },
            children: Seq::empty(),
        },
        NodeView::Element { attrs, children, .. } => {
            let style = lookup(attrs, "style"@);
            let m = box_sides(style, "margin"@);
            let p = box_sides(style, "padding"@);
            let elem_x = x.wrapping_add(m.0);
            let elem_y = y.wrapping_add(m.2);
            let rect_w = or_else(length_or_percent(style, "width"@, avail_w, percent), avail_w);
            let content_x = elem_x.wrapping_add(p.0);
            let content_y = elem_y.wrapping_add(p.2);
            let content_w = max32(rect_w.wrapping_sub(p.0).wrapping_sub(p.1), 0);
            let inner_h = max32(avail_h.wrapping_sub(p.2).wrapping_sub(p.3), 0);
            let flow = flow_of(style);
            let gap = if flow == Flow::Block {
                0i32
            } else {
                or_else(length_or_percent(style, "gap"@, 0, percent), 0)
            };
            let laid = laid_children(
                children,
                children.len(),
                flow,
                content_x,
                content_y,
                content_w,
                inner_h,
                gap,
                percent,
            );
            let kids = if flow == Flow::Row {
                aligned_top(laid, content_y)
            } else {
                laid
            };
            let content_h = if kids.len() > 0 {
                max32(kids.last().rect.y.wrapping_add(kids.last().rect.h).wrapping_sub(content_y), 0)
            } else {
                0i32
            };
            let rect_h = or_else(
                length_or_percent(style, "height"@, avail_h, percent),
                content_h.wrapping_add(p.3),
            );
            LayoutView { rect: Rect { x: elem_x, y: elem_y, w: rect_w, h: rect_h }, children: kids }
        },
    }
}

/// The `style` attribute of the node.
fn style_in(node: &VNode) -> (r: Option<&str>)
    ensures
        opt_view(r) == style_of(node@),
{
    match node {
        VNode::Element { props, .. } => match props.get("style") {
            Some(s) => Some(s.as_str()),
            None => None,
        },
        VNode::Text(_) => None,
    }
}

/// How an element with the style `style` lays out its children.
fn flow_in(style: Option<&str>) -> (r: Flow)
    ensures
        r == flow_of(opt_view(style)),
{
    let flex = match find_decl(style, "display") {
        Some(v) => same(&trim(&v), &chars_of("flex")),
        None => false,
    };
    proof {
        reveal_strlit("block");
        reveal_strlit("flex");
        assert("block"@ != "flex"@) by {
            assert("block"@.len() == 5);
            assert("flex"@.len() == 4);
        }
    }
    if flex {
        let column = match find_decl(style, "flex-direction") {
            Some(v) => same(&trim(&v), &chars_of("column")),
            None => false,
        };
        proof {
            reveal_strlit("row");
            reveal_strlit("column");
            assert("row"@ != "column"@) by {
                assert("row"@.len() == 3);
                assert("column"@.len() == 6);
            }
        }
        if column {
            Flow::Column
        } else {
            Flow::Row
        }
    } else {
        Flow::Block
    }
}

/// The layouts of the children of an element.
fn lay_children<F: Fn(&str, i32) -> Option<i32>>(
    children: &Vec<VNode>,
    flow: Flow,
    cx: i32,
    cy: i32,
    cw: i32,
    ch: i32,
    gap: i32,
    percent: &F,
) -> (out: Vec<LayoutNode>)
    requires
        resolves_by_view(*percent),
    ensures
        layout_views(out@) == laid_children(
            views(children@),
            children@.len(),
            flow,
            cx,
            cy,
            cw,
            ch,
            gap,
            percent_by(*percent),
        ),
    decreases children, 1nat,
{
    let ghost kids = views(children@);
    let mut out: Vec<LayoutNode> = Vec::new();
    let mut x = cx;
    let mut y = cy;
    let mut i: usize = 0;
    assert(layout_views(out@) =~= laid_children(
        kids,
        0,
        flow,
        cx,
        cy,
        cw,
        ch,
        gap,
        percent_by(*percent),
    ));
    while i < children.len()
        invariant
            i <= children@.len(),
            kids == views(children@),
            resolves_by_view(*percent),
            layout_views(out@) == laid_children(
                kids,
                i as nat,
                flow,
                cx,
                cy,
                cw,
                ch,
                gap,
                percent_by(*percent),
            ),
            out@.len() == i,
            (x, y) == child_origin(layout_views(out@), kids, i as int, flow, cx, cy, gap),
        decreases children@.len() - i,
    {
        assert(kids[i as int] == children@[i as int]@);
        let ghost before = layout_views(out@);
        let child = at(&children[i], x, y, cw, ch, percent);
        let rect = child.rect;
        let ghost cv = child@;
        out.push(child);
        assert(layout_views(out@) =~= before.push(cv));
        match flow {
            Flow::Block => {
                let sides = style_box_sides(style_in(&children[i]), "margin");
                y = rect.y.wrapping_add(rect.h).wrapping_add(sides.3);
            },
            Flow::Column => {
                y = rect.y.wrapping_add(rect.h).wrapping_add(gap);
            },
            Flow::Row => {
                x = rect.x.wrapping_add(rect.w).wrapping_add(gap);
            },
        }
        i = i + 1;
    }
    out
}

/// The layouts `kids`, each moved to the top edge `y`.
fn align_top(kids: &Vec<LayoutNode>, y: i32) -> (aligned: Vec<LayoutNode>)
    ensures
        layout_views(aligned@) == aligned_top(layout_views(kids@), y),
{
    let ghost laid = layout_views(kids@);
    let mut aligned: Vec<LayoutNode> = Vec::new();
    let mut k: usize = 0;
    while k < kids.len()
        invariant
            k <= kids@.len(),
            laid == layout_views(kids@),
            aligned@.len() == k,
            forall|j: int| 0 <= j < k ==> (#[trigger] aligned@[j])@ == aligned_top(laid, y)[j],
        decreases kids@.len() - k,
    {
        assert(laid[k as int] == kids@[k as int]@);
        let r = kids[k].rect;
        let moved = Rect { x: r.x, y, w: r.w, h: r.h };
        aligned.push(LayoutNode { rect: moved, children: clone_layouts(&kids[k].children) });
        k = k + 1;
    }
    assert(layout_views(aligned@) =~= aligned_top(laid, y));
    aligned
}

/// The layout of the node placed at `x`, `y`.
fn at<F: Fn(&str, i32) -> Option<i32>>(
    node: &VNode,
    x: i32,
    y: i32,
    avail_w: i32,
    avail_h: i32,
    percent: &F,
) -> (out: LayoutNode)
    requires
        resolves_by_view(*percent),
    ensures
        out@ == placed(node@, x, y, avail_w, avail_h, percent_by(*percent)),
    decreases node, 0nat,
{
    match node {
        VNode::Text(t) => {
            let shown = string_of(&trim(&chars_of(t.as_str())));
            let len = shown.as_str().len();
            let n = #[verifier::truncate]
            (len as i32);
            let w = (if n >= 1 {
                n
            } else {
                1
            }).wrapping_mul(8);
            let out = LayoutNode { rect: Rect { x, y, w, h: 16 }, children: Vec::new() };
            assert(layout_views(out.children@) =~= Seq::<LayoutView>::empty());
            out
        },
        VNode::Element { props, children, .. } => {
            let style = style_in(node);
            let m = style_box_sides(style, "margin");
            let p = style_box_sides(style, "padding");
            let elem_x = x.wrapping_add(m.0);
            let elem_y = y.wrapping_add(m.2);
            let rect_w = match style_lookup_len(style, "width", avail_w, percent) {
                Some(v) => v,
                None => avail_w,
            };
            let content_x = elem_x.wrapping_add(p.0);
            let content_y = elem_y.wrapping_add(p.2);
            let raw_w = rect_w.wrapping_sub(p.0).wrapping_sub(p.1);
            let content_w = if raw_w >= 0 {
                raw_w
            } else {
                0
            };
            let raw_h = avail_h.wrapping_sub(p.2).wrapping_sub(p.3);
            let inner_h = if raw_h >= 0 {
                raw_h
            } else {
                0
            };
            let flow = flow_in(style);
            let gap = match flow {
                Flow::Block => 0,
                _ => match style_lookup_len(style, "gap", 0, percent) {
                    Some(v) => v,
                    None => 0,
                },
            };
            let mut kids = lay_children(
                children,
                flow,
                content_x,
                content_y,
                content_w,
                inner_h,
                gap,
                percent,
            );
            match flow {
                Flow::Row => {
                    kids = align_top(&kids, content_y);
                },
                _ => {},
            }
            let ghost shown = layout_views(kids@);
            let content_h = if kids.len() > 0 {
                let last = kids[kids.len() - 1].rect;
                assert(shown.last() == kids@[kids@.len() - 1]@);
                let raw = last.y.wrapping_add(last.h).wrapping_sub(content_y);
                if raw >= 0 {
                    raw
                } else {
                    0
                }
            } else {
                0
            };
            let rect_h = match style_lookup_len(style, "height", avail_h, percent) {
                Some(v) => v,
                None => content_h.wrapping_add(p.3),
            };
            LayoutNode { rect: Rect { x: elem_x, y: elem_y, w: rect_w, h: rect_h }, children: kids }
        },
    }
}

/// The layout of the tree in a viewport of the given size. An element is a
/// block, whose children stand one below the other, or a flex row or
/// column; it takes the whole width unless its inline `style` declares a
/// `width`; `margin`, `padding`, `height` and `gap` are read from the style
/// too. `percent` says what a percentage (the text before the `%`) of a
/// base length is.
pub fn compute_layout<F: Fn(&str, i32) -> Option<i32>>(
    node: &VNode,
    viewport_w: i32,
    viewport_h: i32,
    percent: &F,
) -> (out: LayoutNode)
    requires
        resolves_by_view(*percent),
    ensures
        out@ == placed(node@, 0, 0, viewport_w, viewport_h, percent_by(*percent)),
{
    at(node, 0, 0, viewport_w, viewport_h, percent)
}

} // verus!
