//! Writing a template out as the source text of a function that builds its
//! tree.

use crate::template_ast::{
    attr_views, clone_attrs, node_views, AttrKind, AttrView, Node, TemplateAttr, TemplateView,
};
use crate::template_parse::{parse_template_to_ast, parsed};
use crate::text::{chars_of, push_chars, trim, trimmed};
use vstd::prelude::*;

verus! {

/// The first `n` characters of `s`, escaped for a string literal.
pub open spec fn escaped(s: Seq<char>, n: nat) -> Seq<char>
    decreases n,
{
    if n == 0 || n > s.len() {
        Seq::empty()
    } else {
        let rest = escaped(s, (n - 1) as nat);
        let c = s[n - 1];
        if c == '\\' {
            rest + "\\\\"@
        } else if c == '"' {
            rest + "\\\""@
        } else if c == '\n' {
            rest + "\\n"@
        } else if c == '\r' {
            rest + "\\r"@
        } else if c == '\t' {
            rest + "\\t"@
        } else {
            rest.push(c)
        }
    }
}

/// `s` as a string literal: between double quotes, with backslashes, double
/// quotes, line feeds, carriage returns and tabs escaped.
pub open spec fn literal(s: Seq<char>) -> Seq<char> {
    "\""@ + escaped(s, s.len()) + "\""@
}

/// The value of an attribute, or the empty string if it has none.
pub open spec fn value_or_empty(a: AttrView) -> Seq<char> {
    match a.value {
        Some(v) => v,
        None => Seq::empty(),
    }
}

/// The value of an attribute, or its name if it has none.
pub open spec fn value_or_name(a: AttrView) -> Seq<char> {
    match a.value {
        Some(v) => v,
        None => a.name,
    }
}

/// What one attribute adds to the attribute builder. With `resolving`, a
/// binding asks the resolver for its expression; without, it formats the
/// expression itself. A directive adds nothing.
pub open spec fn prop_part(a: AttrView, resolving: bool) -> Seq<char> {
    match a.kind {
        AttrKind::Static => ".set(\""@ + a.name + "\", "@ + literal(value_or_empty(a)) + ")"@,
        AttrKind::Bind => if resolving {
            ".set(\""@ + a.name + "\", &resolve("@ + literal(trimmed(value_or_name(a))) + "))"@
        } else {
            ".set(\""@ + a.name + "\", &format!(\"{}\", "@ + trimmed(value_or_name(a)) + "))"@
        },
        AttrKind::Directive => Seq::empty(),
        AttrKind::On => ".set(\"on:"@ + a.name + "\", "@ + literal(value_or_empty(a)) + ")"@,
    }
}

/// What the first `n` attributes add to the attribute builder.
pub open spec fn prop_parts(attrs: Seq<AttrView>, n: nat, resolving: bool) -> Seq<char>
    decreases n,
{
    if n == 0 || n > attrs.len() {
        Seq::empty()
    } else {
        prop_parts(attrs, (n - 1) as nat, resolving) + prop_part(attrs[n - 1], resolving)
    }
}

/// The expression that builds the attributes.
pub open spec fn props_text(attrs: Seq<AttrView>, resolving: bool) -> Seq<char> {
    "Props::new()"@ + prop_parts(attrs, attrs.len(), resolving)
}

/// The first `n` of `items`, with a comma and a blank between two.
pub open spec fn joined(items: Seq<Seq<char>>, n: nat) -> Seq<char>
    decreases n,
{
    if n == 0 || n > items.len() {
        Seq::empty()
    } else {
        joined(items, (n - 1) as nat) + (if n > 1 {
            ", "@
        } else {
            Seq::empty()
        }) + items[n - 1]
    }
}

/// The expressions that build the nodes of `nodes`, each on its own.
pub open spec fn plain_items(nodes: Seq<TemplateView>) -> Seq<Seq<char>>
    decreases nodes, 0nat,
{
    Seq::new(
        nodes.len(),
        |i: int|
            if 0 <= i < nodes.len() {
                node_text(nodes[i])
            } else {
                Seq::empty()
            },
    )
}

/// The expression that builds the children `nodes`, each on its own.
pub open spec fn children_text(nodes: Seq<TemplateView>) -> Seq<char>
    decreases nodes, 1nat,
{
    if nodes.len() == 0 {
        "vec![]"@
    } else {
        "vec!["@ + joined(plain_items(nodes), nodes.len()) + "]"@
    }
}

/// The expression that builds the node, directives disregarded: `text(..)`
/// for a text, `text(&resolve(..))` for an interpolation, `h(..)` for an
/// element.
pub open spec fn node_text(node: TemplateView) -> Seq<char>
    decreases node, 2nat,
{
    match node {
        TemplateView::Text(t) => "text("@ + literal(t) + ")"@,
        TemplateView::Interpolation(e) => "text(&resolve("@ + literal(trimmed(e)) + "))"@,
        TemplateView::Element { tag, attrs, children, .. } => "h(\""@ + tag + "\", "@ + props_text(
            attrs,
            false,
        ) + ", "@ + children_text(children) + ")"@,
    }
}

/// Whether `a` is a directive with one of the two names.
pub open spec fn is_directive(a: AttrView, name: Seq<char>, other: Seq<char>) -> bool {
    a.kind == AttrKind::Directive && (a.name == name || a.name == other)
}

/// The first position from `i` on that holds a directive with one of the two
/// names, or the length.
pub open spec fn directive_from(attrs: Seq<AttrView>, name: Seq<char>, other: Seq<char>, i: int) -> int
    decreases attrs.len() - i,
{
    if 0 <= i < attrs.len() && !is_directive(attrs[i], name, other) {
        directive_from(attrs, name, other, i + 1)
    } else {
        i
    }
}

/// `inner` inside one condition for each `if` directive among the
/// attributes from `i` on, the first outermost; where a condition fails, an
/// empty text stands.
pub open spec fn guarded(attrs: Seq<AttrView>, i: int, inner: Seq<char>) -> Seq<char>
    decreases attrs.len() - i,
{
    let p = directive_from(attrs, "if"@, "if"@, i);
    if 0 <= i <= p < attrs.len() {
        "if ("@ + trimmed(value_or_empty(attrs[p])) + ") { "@ + guarded(attrs, p + 1, inner)
            + " } else { text(\"\") }"@
    } else {
        inner
    }
}

/// The attributes of an element; none for any other node.
pub open spec fn attrs_of(node: TemplateView) -> Seq<AttrView> {
    match node {
        TemplateView::Element { attrs, .. } => attrs,
        _ => Seq::empty(),
    }
}

/// The expression that builds an element of a chain of conditions, once the
/// directive at `used` has been taken off it: the element inside its `if`
/// directives but the one at `used`.
pub open spec fn branch_text(node: TemplateView, used: int) -> Seq<char>
    decreases node, 3nat,
{
    guarded(attrs_of(node).remove(used), 0, element_text(node))
}

/// The rest of a chain of conditions from the sibling `j` on, and the
/// sibling behind the chain: a branch for each element with an `else-if`
/// (or `elseif`) directive, then that of an element with an `else`
/// directive, if one follows at once; else an empty text.
pub open spec fn chain_tail(nodes: Seq<TemplateView>, j: int) -> (Seq<char>, int)
    decreases nodes, nodes.len() - j,
{
    if 0 <= j < nodes.len() && nodes[j] is Element {
        let attrs = attrs_of(nodes[j]);
        let p = directive_from(attrs, "else-if"@, "elseif"@, 0);
        let q = directive_from(attrs, "else"@, "else"@, 0);
        if 0 <= p < attrs.len() {
            let rest = chain_tail(nodes, j + 1);
            (
                " else if ("@ + trimmed(value_or_empty(attrs[p])) + ") { "@ + branch_text(
                    nodes[j],
                    p,
                ) + " }"@ + rest.0,
                rest.1,
            )
        } else if 0 <= q < attrs.len() {
            (" else { "@ + branch_text(nodes[j], q) + " }"@, j + 1)
        } else {
            (" else { text(\"\") }"@, j)
        }
    } else {
        (" else { text(\"\") }"@, j)
    }
}

/// The expressions that build the children from `i` on. An element with an
/// `if` directive begins a chain of conditions, which takes in the siblings
/// that `chain_tail` reads and gives one expression; any other child gives
/// its own.
pub open spec fn chained_items(nodes: Seq<TemplateView>, i: int) -> Seq<Seq<char>>
    decreases nodes, nodes.len() - i,
{
    if 0 <= i < nodes.len() {
        let attrs = attrs_of(nodes[i]);
        let p = directive_from(attrs, "if"@, "if"@, 0);
        if nodes[i] is Element && 0 <= p < attrs.len() {
            let tail = chain_tail(nodes, i + 1);
            let cond = "(if ("@ + trimmed(value_or_empty(attrs[p])) + ") { "@ + branch_text(
                nodes[i],
                p,
            ) + " }"@ + tail.0 + ")"@;
            if i < tail.1 <= nodes.len() {
                seq![cond] + chained_items(nodes, tail.1)
            } else {
                seq![cond]
            }
        } else {
            seq![resolved_text(nodes[i])] + chained_items(nodes, i + 1)
        }
    } else {
        Seq::empty()
    }
}

/// The expression that builds the children `nodes`, with chains of
/// conditions.
pub open spec fn chained_children_text(nodes: Seq<TemplateView>) -> Seq<char>
    decreases nodes, nodes.len() + 1,
{
    if nodes.len() == 0 {
        "vec![]"@
    } else {
        let items = chained_items(nodes, 0);
        "vec!["@ + joined(items, items.len()) + "]"@
    }
}

/// The expression that builds the node with the help of a resolver, its own
/// `if` directives disregarded.
pub open spec fn element_text(node: TemplateView) -> Seq<char>
    decreases node, 2nat,
{
    match node {
        TemplateView::Text(t) => "text("@ + literal(t) + ")"@,
        TemplateView::Interpolation(e) => "text(&resolve("@ + literal(trimmed(e)) + "))"@,
        TemplateView::Element { tag, attrs, children, .. } => "h(\""@ + tag + "\", "@ + props_text(
            attrs,
            true,
        ) + ", "@ + chained_children_text(children) + ")"@,
    }
}

/// The expression that builds the node with the help of a resolver: the
/// node inside one condition for each of its `if` directives.
pub open spec fn resolved_text(node: TemplateView) -> Seq<char>
    decreases node, 4nat,
{
    guarded(attrs_of(node), 0, element_text(node))
}

/// The source text for a template that holds no node.
pub open spec fn empty_module() -> Seq<char> {
    "pub fn render() -> velox_dom::VNode {\n    use velox_dom::*;\n    text(\"\")\n}"@
}

/// The source text for a template whose first root is built by `body`.
pub open spec fn module_text(body: Seq<char>) -> Seq<char> {
    "pub fn render() -> velox_dom::VNode {\n    render_with(|_| String::new())\n}\n\npub fn render_with<F>(mut resolve: F) -> velox_dom::VNode where F: FnMut(&str) -> String {\n    use velox_dom::*;\n    "@
        + body + "\n}"@
}

/// The source text that the template `src` compiles to: a function `render`
/// and, unless the template is empty, a function `render_with` that builds
/// the first root of the template.
pub open spec fn compiled(src: Seq<char>) -> Seq<char> {
    let nodes = parsed(src);
    if nodes.len() == 0 {
        empty_module()
    } else {
        module_text(resolved_text(nodes[0]))
    }
}

/// Appends `s` as a string literal to `out`.
pub fn push_literal(out: &mut String, s: &str)
    ensures
        final(out)@ == old(out)@ + literal(s@),
{
    let v = chars_of(s);
    let ghost start = out@;
    out.append("\"");
    let ghost opened = out@;
    let mut i: usize = 0;
    assert(out@ =~= opened + escaped(v@, 0));
    while i < v.len()
        invariant
            i <= v@.len(),
            out@ == opened + escaped(v@, i as nat),
        decreases v@.len() - i,
    {
        let c = v[i];
        let ghost before = out@;
        if c == '\\' {
            out.append("\\\\");
        } else if c == '"' {
            out.append("\\\"");
        } else if c == '\n' {
            out.append("\\n");
        } else if c == '\r' {
            out.append("\\r");
        } else if c == '\t' {
            out.append("\\t");
        } else {
            out.push(c);
        }
        assert(out@ =~= opened + escaped(v@, (i + 1) as nat));
        i = i + 1;
    }
    out.append("\"");
    assert(out@ =~= start + literal(s@));
}

/// Appends `s`, trimmed, to `out`.
fn push_trimmed(out: &mut String, s: &str)
    ensures
        final(out)@ == old(out)@ + trimmed(s@),
{
    let t = trim(&chars_of(s));
    push_chars(out, &t);
}

/// `s` as a string literal.
pub fn string_lit(s: &str) -> (r: String)
    ensures
        r@ == literal(s@),
{
    let mut out = String::new();
    push_literal(&mut out, s);
    assert(out@ =~= literal(s@));
    out
}

/// The value of the attribute, or the empty string.
fn value_of(a: &TemplateAttr) -> (r: &str)
    ensures
        r@ == value_or_empty(a@),
{
    proof {
        reveal_strlit("");
        assert(""@ =~= Seq::<char>::empty());
    }
    match &a.value {
        Some(v) => v.as_str(),
        None => "",
    }
}

/// Appends to `out` what `a` adds to the attribute builder.
fn push_prop(out: &mut String, a: &TemplateAttr, resolving: bool)
    ensures
        final(out)@ == old(out)@ + prop_part(a@, resolving),
{
    let ghost start = out@;
    match a.kind {
        AttrKind::Static => {
            out.append(".set(\"");
            out.append(a.name.as_str());
            out.append("\", ");
            push_literal(out, value_of(a));
            out.append(")");
        },
        AttrKind::Bind => {
            let expr: &str = match &a.value {
                Some(v) => v.as_str(),
                None => a.name.as_str(),
            };
            out.append(".set(\"");
            out.append(a.name.as_str());
            if resolving {
                out.append("\", &resolve(");
                let t = string_of_trimmed(expr);
                push_literal(out, t.as_str());
                out.append("))");
            } else {
                out.append("\", &format!(\"{}\", ");
                push_trimmed(out, expr);
                out.append("))");
            }
        },
        AttrKind::Directive => {},
        AttrKind::On => {
            out.append(".set(\"on:");
            out.append(a.name.as_str());
            out.append("\", ");
            push_literal(out, value_of(a));
            out.append(")");
        },
    }
    assert(out@ =~= start + prop_part(a@, resolving));
}

/// `s`, trimmed.
fn string_of_trimmed(s: &str) -> (r: String)
    ensures
        r@ == trimmed(s@),
{
    crate::text::string_of(&trim(&chars_of(s)))
}

/// The expression that builds the attributes.
fn props_of(attrs: &Vec<TemplateAttr>, resolving: bool) -> (r: String)
    ensures
        r@ == props_text(attr_views(attrs@), resolving),
{
    let mut out = String::from_str("Props::new()");
    let ghost views = attr_views(attrs@);
    let mut i: usize = 0;
    assert(out@ =~= "Props::new()"@ + prop_parts(views, 0, resolving));
    while i < attrs.len()
        invariant
            i <= attrs@.len(),
            views == attr_views(attrs@),
            out@ == "Props::new()"@ + prop_parts(views, i as nat, resolving),
        decreases attrs@.len() - i,
    {
        assert(views[i as int] == attrs@[i as int]@);
        push_prop(&mut out, &attrs[i], resolving);
        assert(out@ =~= "Props::new()"@ + prop_parts(views, (i + 1) as nat, resolving));
        i = i + 1;
    }
    out
}

/// The expression that builds the attributes, a binding formatting its
/// expression itself.
pub fn emit_props(attrs: &Vec<TemplateAttr>) -> (r: String)
    ensures
        r@ == props_text(attr_views(attrs@), false),
{
    props_of(attrs, false)
}

/// The expression that builds the attributes, a binding asking the
/// resolver.
pub fn emit_props_with(attrs: &Vec<TemplateAttr>) -> (r: String)
    ensures
        r@ == props_text(attr_views(attrs@), true),
{
    props_of(attrs, true)
}

/// `vec![` and the items, with a comma and a blank between two, and `]`;
/// `vec![]` for no node.
fn list_of(items: &Vec<String>) -> (r: String)
    ensures
        r@ == "vec!["@ + joined(crate::events::texts(items@), items@.len()) + "]"@,
{
    let ghost views = crate::events::texts(items@);
    let mut out = String::from_str("vec![");
    let mut i: usize = 0;
    assert(out@ =~= "vec!["@ + joined(views, 0));
    while i < items.len()
        invariant
            i <= items@.len(),
            views == crate::events::texts(items@),
            out@ == "vec!["@ + joined(views, i as nat),
        decreases items@.len() - i,
    {
        if i > 0 {
            out.append(", ");
        }
        out.append(items[i].as_str());
        assert(out@ =~= "vec!["@ + joined(views, (i + 1) as nat));
        i = i + 1;
    }
    out.append("]");
    out
}

/// The expression that builds the children, each on its own.
pub fn emit_children(children: &Vec<Node>) -> (r: String)
    ensures
        r@ == children_text(node_views(children@)),
    decreases children, 1nat,
{
    if children.len() == 0 {
        return String::from_str("vec![]");
    }
    let ghost kids = node_views(children@);
    let mut items: Vec<String> = Vec::new();
    let mut i: usize = 0;
    while i < children.len()
        invariant
            i <= children@.len(),
            kids == node_views(children@),
            items@.len() == i,
            forall|j: int| 0 <= j < i ==> (#[trigger] items@[j])@ == node_text(kids[j]),
        decreases children@.len() - i,
    {
        assert(kids[i as int] == children@[i as int]@);
        items.push(emit_node(&children[i]));
        i = i + 1;
    }
    assert(crate::events::texts(items@) =~= plain_items(kids));
    list_of(&items)
}

/// The expression that builds the node, directives disregarded.
pub fn emit_node(n: &Node) -> (r: String)
    ensures
        r@ == node_text(n@),
    decreases n, 2nat,
{
    match n {
        Node::Text(t) => {
            let mut out = String::from_str("text(");
            push_literal(&mut out, t.as_str());
            out.append(")");
            out
        },
        Node::Interpolation(expr) => {
            let mut out = String::from_str("text(&resolve(");
            let key = string_of_trimmed(expr.as_str());
            push_literal(&mut out, key.as_str());
            out.append("))");
            out
        },
        Node::Element { tag, attrs, children, .. } => {
            let props = emit_props(attrs);
            let kids = emit_children(children);
            let mut out = String::from_str("h(\"");
            out.append(tag.as_str());
            out.append("\", ");
            out.append(props.as_str());
            out.append(", ");
            out.append(kids.as_str());
            out.append(")");
            assert(out@ =~= node_text(n@));
            out
        },
    }
}

/// The first position from `i` on that holds a directive with one of the
/// two names, or the length.
fn find_directive(attrs: &Vec<TemplateAttr>, name: &str, other: &str, i: usize) -> (p: usize)
    requires
        i <= attrs@.len(),
    ensures
        p == directive_from(attr_views(attrs@), name@, other@, i as int),
        i <= p <= attrs@.len(),
{
    let ghost views = attr_views(attrs@);
    let mut p: usize = i;
    while p < attrs.len()
        invariant
            i <= p <= attrs@.len(),
            views == attr_views(attrs@),
            directive_from(views, name@, other@, p as int) == directive_from(
                views,
                name@,
                other@,
                i as int,
            ),
        decreases attrs@.len() - p,
    {
        assert(views[p as int] == attrs@[p as int]@);
        let a = &attrs[p];
        let hit = match a.kind {
            AttrKind::Directive => a.name.as_str().eq(name) || a.name.as_str().eq(other),
            _ => false,
        };
        if hit {
            return p;
        }
        p = p + 1;
    }
    p
}

/// `inner` inside one condition for each `if` directive from `i` on.
fn guard_from(attrs: &Vec<TemplateAttr>, i: usize, inner: &str) -> (r: String)
    requires
        i <= attrs@.len(),
    ensures
        r@ == guarded(attr_views(attrs@), i as int, inner@),
    decreases attrs@.len() - i,
{
    let p = find_directive(attrs, "if", "if", i);
    if p < attrs.len() {
        assert(attr_views(attrs@)[p as int] == attrs@[p as int]@);
        let rest = guard_from(attrs, p + 1, inner);
        let mut out = String::from_str("if (");
        push_trimmed(&mut out, value_of(&attrs[p]));
        out.append(") { ");
        out.append(rest.as_str());
        out.append(" } else { text(\"\") }");
        assert(out@ =~= guarded(attr_views(attrs@), i as int, inner@));
        out
    } else {
        String::from_str(inner)
    }
}

/// The attributes of the node; none for a text or an interpolation.
fn attrs_in(n: &Node) -> (r: Vec<TemplateAttr>)
    ensures
        attr_views(r@) == attrs_of(n@),
{
    match n {
        Node::Element { attrs, .. } => clone_attrs(attrs),
        _ => {
            let r: Vec<TemplateAttr> = Vec::new();
            assert(attr_views(r@) =~= Seq::<AttrView>::empty());
            r
        },
    }
}

/// The expression that builds an element of a chain of conditions, once the
/// directive at `used` has been taken off it.
fn branch(n: &Node, used: usize) -> (r: String)
    requires
        used < attrs_of(n@).len(),
    ensures
        r@ == branch_text(n@, used as int),
    decreases n, 3nat,
{
    let mut attrs = attrs_in(n);
    let ghost before = attr_views(attrs@);
    attrs.remove(used);
    assert(attr_views(attrs@) =~= before.remove(used as int));
    let inner = element_of(n);
    guard_from(&attrs, 0, inner.as_str())
}

/// The expression that builds the children, with chains of conditions.
pub fn emit_children_with(children: &Vec<Node>) -> (r: String)
    ensures
        r@ == chained_children_text(node_views(children@)),
    decreases children, children@.len() + 1,
{
    if children.len() == 0 {
        return String::from_str("vec![]");
    }
    let ghost kids = node_views(children@);
    let ghost all = chained_items(kids, 0);
    let n = children.len();
    let mut items: Vec<String> = Vec::new();
    let mut i: usize = 0;
    assert(crate::events::texts(items@) + chained_items(kids, 0) =~= all);
    while i < n
        invariant
            i <= n,
            n == children@.len(),
            kids == node_views(children@),
            crate::events::texts(items@) + chained_items(kids, i as int) == all,
        decreases n - i,
    {
        assert(kids[i as int] == children@[i as int]@);
        let ghost done = crate::events::texts(items@);
        let attrs = attrs_in(&children[i]);
        let p = find_directive(&attrs, "if", "if", 0);
        let is_element = match &children[i] {
            Node::Element { .. } => true,
            _ => false,
        };
        if is_element && p < attrs.len() {
            assert(attr_views(attrs@)[p as int] == attrs@[p as int]@);
            let mut cond = String::from_str("(if (");
            push_trimmed(&mut cond, value_of(&attrs[p]));
            cond.append(") { ");
            let first = branch(&children[i], p);
            cond.append(first.as_str());
            cond.append(" }");
            let ghost head = cond@;
            let ghost goal = chain_tail(kids, i + 1);
            let mut j: usize = i + 1;
            let mut open = true;
            assert(cond@ + chain_tail(kids, j as int).0 =~= head + goal.0);
            while open
                invariant
                    i < j <= n,
                    n == children@.len(),
                    kids == node_views(children@),
                    open ==> cond@ + chain_tail(kids, j as int).0 == head + goal.0,
                    open ==> chain_tail(kids, j as int).1 == goal.1,
                    !open ==> cond@ == head + goal.0 && j == goal.1,
                decreases n - j, (if open { 1nat } else { 0nat }),
            {
                if j >= n {
                    cond.append(" else { text(\"\") }");
                    open = false;
                } else {
                    assert(kids[j as int] == children@[j as int]@);
                    let is_el = match &children[j] {
                        Node::Element { .. } => true,
                        _ => false,
                    };
                    let attrs2 = attrs_in(&children[j]);
                    let ei = find_directive(&attrs2, "else-if", "elseif", 0);
                    let eo = find_directive(&attrs2, "else", "else", 0);
                    if is_el && ei < attrs2.len() {
                        assert(attr_views(attrs2@)[ei as int] == attrs2@[ei as int]@);
                        let ghost before = cond@;
                        cond.append(" else if (");
                        push_trimmed(&mut cond, value_of(&attrs2[ei]));
                        cond.append(") { ");
                        let inner = branch(&children[j], ei);
                        cond.append(inner.as_str());
                        cond.append(" }");
                        proof {
                            let part = " else if ("@ + trimmed(value_or_empty(attr_views(attrs2@)[ei as int]))
                                + ") { "@ + branch_text(kids[j as int], ei as int) + " }"@;
                            assert(cond@ =~= before + part);
                            assert(chain_tail(kids, j as int).0 =~= part + chain_tail(
                                kids,
                                j + 1,
                            ).0);
                            assert(before + part + chain_tail(kids, j + 1).0 =~= before + (part
                                + chain_tail(kids, j + 1).0));
                        }
                        j = j + 1;
                    } else if is_el && eo < attrs2.len() {
                        let ghost before = cond@;
                        cond.append(" else { ");
                        let inner = branch(&children[j], eo);
                        cond.append(inner.as_str());
                        cond.append(" }");
                        proof {
                            let part = " else { "@ + branch_text(kids[j as int], eo as int) + " }"@;
                            assert(cond@ =~= before + part);
                        }
                        j = j + 1;
                        open = false;
                    } else {
                        cond.append(" else { text(\"\") }");
                        open = false;
                    }
                }
            }
            cond.append(")");
            let ghost cv = cond@;
            items.push(cond);
            proof {
                assert(crate::events::texts(items@) =~= done.push(cv));
                assert(done.push(cv) + chained_items(kids, j as int) =~= done + (seq![cv]
                    + chained_items(kids, j as int)));
            }
            i = j;
        } else {
            let one = emit_node_with(&children[i]);
            let ghost ov = one@;
            items.push(one);
            proof {
                assert(crate::events::texts(items@) =~= done.push(ov));
                assert(done.push(ov) + chained_items(kids, i + 1) =~= done + (seq![ov]
                    + chained_items(kids, i + 1)));
            }
            i = i + 1;
        }
    }
    assert(crate::events::texts(items@) + chained_items(kids, i as int) =~= crate::events::texts(
        items@,
    ));
    list_of(&items)
}

/// The expression that builds the node with the help of a resolver, its own
/// `if` directives disregarded.
fn element_of(n: &Node) -> (r: String)
    ensures
        r@ == element_text(n@),
    decreases n, 2nat,
{
    match n {
        Node::Text(t) => {
            let mut out = String::from_str("text(");
            push_literal(&mut out, t.as_str());
            out.append(")");
            out
        },
        Node::Interpolation(expr) => {
            let mut out = String::from_str("text(&resolve(");
            let key = string_of_trimmed(expr.as_str());
            push_literal(&mut out, key.as_str());
            out.append("))");
            out
        },
        Node::Element { tag, attrs, children, .. } => {
            let props = emit_props_with(attrs);
            let kids = emit_children_with(children);
            let mut out = String::from_str("h(\"");
            out.append(tag.as_str());
            out.append("\", ");
            out.append(props.as_str());
            out.append(", ");
            out.append(kids.as_str());
            out.append(")");
            assert(out@ =~= element_text(n@));
            out
        },
    }
}

/// The expression that builds the node with the help of a resolver.
pub fn emit_node_with(n: &Node) -> (r: String)
    ensures
        r@ == resolved_text(n@),
    decreases n, 4nat,
{
    let attrs = attrs_in(n);
    let inner = element_of(n);
    guard_from(&attrs, 0, inner.as_str())
}

/// Compiles a template to the source text of a module with a function
/// `render`, which builds the tree of the first root of the template. Every
/// template compiles.
pub fn compile_template_to_rs(template_src: &str, _component_name: &str) -> (r: Result<
    String,
    String,
>)
    ensures
        r matches Ok(text) && text@ == compiled(template_src@),
{
    let nodes = match parse_template_to_ast(template_src) {
        Ok(nodes) => nodes,
        Err(e) => {
            return Err(e);
        },
    };
    if nodes.len() == 0 {
        return Ok(
            String::from_str(
                "pub fn render() -> velox_dom::VNode {\n    use velox_dom::*;\n    text(\"\")\n}",
            ),
        );
    }
    assert(node_views(nodes@)[0] == nodes@[0]@);
    let body = emit_node_with(&nodes[0]);
    let mut out = String::from_str(
        "pub fn render() -> velox_dom::VNode {\n    render_with(|_| String::new())\n}\n\npub fn render_with<F>(mut resolve: F) -> velox_dom::VNode where F: FnMut(&str) -> String {\n    use velox_dom::*;\n    ",
    );
    out.append(body.as_str());
    out.append("\n}");
    Ok(out)
}

} // verus!
