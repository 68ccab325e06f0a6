use velox::template_ast::{AttrKind, Node, TemplateAttr};
use velox::template_codegen::{
    compile_template_to_rs, emit_children, emit_children_with, emit_node, emit_node_with,
    emit_props, emit_props_with, string_lit,
};
use velox::template_parse::parse_template_to_ast;

#[test]
fn codegen_div_with_text() {
    let rs = compile_template_to_rs("<div>hi</div>", "App").unwrap();
    assert!(rs.contains(r#"use velox_dom::*"#));
    assert!(rs.contains(r#"h("div""#));
    assert!(rs.contains(r#"text("hi")"#));
}

#[test]
fn codegen_interpolation() {
    let rs = compile_template_to_rs("<p>Hello {{name}}</p>", "App").unwrap();
    println!("-- GENERATED RS --\n{}\n-- END RS --", rs);
    assert!(rs.contains(r#"h("p""#));
    assert!(rs.contains(r#"text("Hello")"#) || rs.contains(r#"text("Hello ")"#));
    assert!(rs.contains(r#"resolve("name")"#) || rs.contains(r#"resolve("name")"#));
}

#[test]
fn codegen_attrs() {
    let rs = compile_template_to_rs(
        r#"<input class="x" :value="count" @input="onInput"/>"#,
        "App",
    )
    .unwrap();
    assert!(rs.contains(r#".set("class", "x")"#));
    assert!(rs.contains(r#".set("value", &resolve("count"))"#));
    assert!(rs.contains(r#".set("on:input", "onInput")"#));
}

#[test]
fn codegen_v_else_if_chain() {
    let tpl = "<div><p v-if=\"a\">A</p><p v-else-if=\"b\">B</p><p v-else-if=\"c\">C</p><p v-else>D</p></div>";
    let rs = compile_template_to_rs(tpl, "App").unwrap();
    assert!(rs.contains("if (a)") || rs.contains("if(a)"));
    assert!(rs.contains("else if (b)") || rs.contains("else if(b)"));
    assert!(rs.contains("else if (c)") || rs.contains("else if(c)"));
    assert!(rs.contains("else {"));
    assert!(rs.contains("text(\"A\")"));
    assert!(rs.contains("text(\"B\")"));
    assert!(rs.contains("text(\"C\")"));
    assert!(rs.contains("text(\"D\")"));
}

#[test]
fn codegen_v_if_else_pairing() {
    let tpl = "<div><p v-if=\"show\">A</p><p v-else>B</p></div>";
    let rs = compile_template_to_rs(tpl, "App").unwrap();
    // should emit a conditional `if (show) { ... } else { ... }` inside children
    assert!(rs.contains("if (show)") || rs.contains("if(show)"));
    assert!(rs.contains("else"));
    assert!(rs.contains("text(\"A\")") || rs.contains("text(\"A\" )"));
    assert!(rs.contains("text(\"B\")") || rs.contains("text(\"B\" )"));
}

#[test]
fn emit_node_text_and_interpolation() {
    let t = Node::Text("hello".to_string());
    let out = emit_node(&t);
    assert_eq!(out, r#"text("hello")"#);

    let i = Node::Interpolation("count".to_string());
    let out2 = emit_node(&i);
    // interpolation uses resolve in other helpers; here emit_node returns text(&resolve("count"))
    assert!(out2.contains("resolve"));
}

#[test]
fn emit_props_varieties() {
    let mut attrs: Vec<TemplateAttr> = Vec::new();
    attrs.push(TemplateAttr { name: "class".into(), value: Some("btn".into()), kind: AttrKind::Static });
    attrs.push(TemplateAttr { name: "value".into(), value: Some("42".into()), kind: AttrKind::Bind });
    attrs.push(TemplateAttr { name: "click".into(), value: Some("inc".into()), kind: AttrKind::On });

    let out = emit_props(&attrs);
    assert!(out.contains("set(\"class\", \"btn\")") || out.contains("class"));
    assert!(out.contains("on:click"));
}

#[test]
fn emit_children_simple() {
    let children = vec![Node::Text("a".into()), Node::Text("b".into())];
    let out = emit_children(&children);
    assert!(out.starts_with("vec!["));
    assert!(out.contains("text(\"a\")"));
}

#[test]
fn string_literals_are_escaped() {
    assert_eq!(string_lit("a\"b\\c\nd\re\tf"), "\"a\\\"b\\\\c\\nd\\re\\tf\"");
    assert_eq!(string_lit(""), "\"\"");
    assert_eq!(string_lit("é"), "\"é\"");
}

#[test]
fn props_are_emitted_exactly() {
    let attrs = vec![
        TemplateAttr { name: "class".into(), value: Some("b\"n".into()), kind: AttrKind::Static },
        TemplateAttr { name: "value".into(), value: Some(" n + 1 ".into()), kind: AttrKind::Bind },
        TemplateAttr { name: "open".into(), value: None, kind: AttrKind::Bind },
        TemplateAttr { name: "if".into(), value: Some("c".into()), kind: AttrKind::Directive },
        TemplateAttr { name: "click".into(), value: None, kind: AttrKind::On },
        TemplateAttr { name: "hidden".into(), value: None, kind: AttrKind::Static },
    ];
    assert_eq!(
        emit_props(&attrs),
        "Props::new().set(\"class\", \"b\\\"n\").set(\"value\", &format!(\"{}\", n + 1)).set(\"open\", &format!(\"{}\", open)).set(\"on:click\", \"\").set(\"hidden\", \"\")"
    );
    assert_eq!(
        emit_props_with(&attrs),
        "Props::new().set(\"class\", \"b\\\"n\").set(\"value\", &resolve(\"n + 1\")).set(\"open\", &resolve(\"open\")).set(\"on:click\", \"\").set(\"hidden\", \"\")"
    );
    assert_eq!(emit_props(&vec![]), "Props::new()");
}

#[test]
fn nodes_are_emitted_exactly() {
    let ast = parse_template_to_ast("<p :a=\"x\">Hi {{ n }}<br/></p>").unwrap();
    assert_eq!(
        emit_node(&ast[0]),
        "h(\"p\", Props::new().set(\"a\", &format!(\"{}\", x)), vec![text(\"Hi \"), text(&resolve(\"n\")), h(\"br\", Props::new(), vec![])])"
    );
    assert_eq!(
        emit_node_with(&ast[0]),
        "h(\"p\", Props::new().set(\"a\", &resolve(\"x\")), vec![text(\"Hi \"), text(&resolve(\"n\")), h(\"br\", Props::new(), vec![])])"
    );
    assert_eq!(emit_children(&vec![]), "vec![]");
    assert_eq!(emit_children_with(&vec![]), "vec![]");
}

#[test]
fn conditions_are_emitted_exactly() {
    // A root with an `if` directive, and a second one inside it.
    let ast = parse_template_to_ast("<p v-if=\" a \" v-if=\"b\">x</p>").unwrap();
    assert_eq!(
        emit_node_with(&ast[0]),
        "if (a) { if (b) { h(\"p\", Props::new(), vec![text(\"x\")]) } else { text(\"\") } } else { text(\"\") }"
    );
    // A chain among the children; a text between two elements ends it.
    let ast = parse_template_to_ast(
        "<div><i v-if=\"a\"/><b v-elseif=\"b\"/><u v-else/><s v-else/>t<em v-if=\"c\"/> <a v-else/></div>",
    )
    .unwrap();
    assert_eq!(
        emit_node_with(&ast[0]),
        "h(\"div\", Props::new(), vec![(if (a) { h(\"i\", Props::new(), vec![]) } else if (b) { h(\"b\", Props::new(), vec![]) } else { h(\"u\", Props::new(), vec![]) }), h(\"s\", Props::new(), vec![]), text(\"t\"), (if (c) { h(\"em\", Props::new(), vec![]) } else { text(\"\") }), text(\" \"), h(\"a\", Props::new(), vec![])])"
    );
}

#[test]
fn modules_are_emitted_exactly() {
    assert_eq!(
        compile_template_to_rs("  ", "App").unwrap(),
        "pub fn render() -> velox_dom::VNode {\n    use velox_dom::*;\n    text(\"\")\n}"
    );
    assert_eq!(
        compile_template_to_rs("<p>a</p><p>b</p>", "App").unwrap(),
        "pub fn render() -> velox_dom::VNode {\n    render_with(|_| String::new())\n}\n\npub fn render_with<F>(mut resolve: F) -> velox_dom::VNode where F: FnMut(&str) -> String {\n    use velox_dom::*;\n    h(\"p\", Props::new(), vec![text(\"a\")])\n}"
    );
}
