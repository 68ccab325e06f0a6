use velox::template_ast::{AttrKind, Node, TemplateAttr};
use velox::template_parse::{
    normalize_directive_name, parse_template_to_ast, read_attribute, read_ident, read_quoted,
    skip_ws, tokenize, Token,
};

fn chars(s: &str) -> Vec<char> {
    s.chars().collect()
}

#[test]
fn parse_element_with_text() {
    let ast = parse_template_to_ast("<div>hi</div>").unwrap();
    assert_eq!(ast.len(), 1);
    match &ast[0] {
        Node::Element { tag, children, .. } => {
            assert_eq!(tag, "div");
            assert_eq!(children.len(), 1);
            assert!(matches!(children[0], Node::Text(_)));
        }
        _ => panic!("expected element"),
    }
}

#[test]
fn parse_text_and_interpolation() {
    let ast = parse_template_to_ast("<p>Hello {{name}}</p>").unwrap();
    match &ast[0] {
        Node::Element { children, .. } => {
            assert!(matches!(children[0], Node::Text(_)));
            assert!(matches!(children[1], Node::Interpolation(_)));
        }
        _ => panic!("expected element"),
    }
}

#[test]
fn parse_attrs_static_bind_event() {
    let ast =
        parse_template_to_ast(r#"<input class="x" :value="count" @input="onInput"/>"#).unwrap();
    match &ast[0] {
        Node::Element { attrs, self_closing, .. } => {
            assert!(*self_closing);
            assert_eq!(attrs.len(), 3);
            assert!(attrs.iter().any(|a| a.kind == AttrKind::Static && a.name == "class"));
            assert!(attrs.iter().any(|a| a.kind == AttrKind::Bind && a.name == "value"));
            assert!(attrs.iter().any(|a| a.kind == AttrKind::On && a.name == "input"));
        }
        _ => panic!("expected element"),
    }
}

#[test]
fn parse_v_if_directive() {
    let ast = parse_template_to_ast(r#"<div v-if="show">Hello</div>"#).unwrap();
    assert_eq!(ast.len(), 1);
    match &ast[0] {
        Node::Element { attrs, children, .. } => {
            assert_eq!(children.len(), 1);
            assert!(attrs.iter().any(|a| a.kind == AttrKind::Directive && a.name == "if"));
        }
        _ => panic!("expected element"),
    }
}

#[test]
fn parse_v_else_variants() {
    let tpl = r#"<div><p v-if="x">A</p><p v-else-if="y">B</p><p v-elseif="z">C</p><p v-else>D</p></div>"#;
    let ast = parse_template_to_ast(tpl).unwrap();
    // root div
    assert_eq!(ast.len(), 1);
    if let Node::Element { children, .. } = &ast[0] {
        // expect 4 child elements
        assert_eq!(children.len(), 4);
        // inspect attrs of each child
        for (i, ch) in children.iter().enumerate() {
            match ch {
                Node::Element { attrs, .. } => {
                    if i == 0 {
                        assert!(attrs.iter().any(|a| a.kind == AttrKind::Directive && a.name == "if"));
                    } else if i == 1 {
                        assert!(attrs.iter().any(|a| a.kind == AttrKind::Directive && a.name == "else-if"));
                    } else if i == 2 {
                        assert!(attrs.iter().any(|a| a.kind == AttrKind::Directive && a.name == "elseif" || a.name == "else-if"));
                    } else if i == 3 {
                        assert!(attrs.iter().any(|a| a.kind == AttrKind::Directive && a.name == "else"));
                    }
                }
                _ => panic!("expected element child"),
            }
        }
    } else {
        panic!("expected root element");
    }
}

fn el(tag: &str, attrs: Vec<TemplateAttr>, children: Vec<Node>) -> Node {
    Node::Element { tag: tag.into(), attrs, children, self_closing: false }
}

fn attr(name: &str, value: Option<&str>, kind: AttrKind) -> TemplateAttr {
    TemplateAttr { name: name.into(), value: value.map(|v| v.to_string()), kind }
}

#[test]
fn parse_gives_the_whole_tree() {
    let ast = parse_template_to_ast(
        "\n  <ul id = 'l' hidden>\n    <li>a {{ x }}</li>\n    <br/>\n  </ul>\n tail",
    )
    .unwrap();
    assert_eq!(
        ast,
        vec![
            el(
                "ul",
                vec![
                    attr("id", Some("l"), AttrKind::Static),
                    attr("hidden", None, AttrKind::Static),
                ],
                vec![
                    Node::Text(" ".into()),
                    el(
                        "li",
                        vec![],
                        vec![Node::Text("a ".into()), Node::Interpolation("x".into())]
                    ),
                    Node::Text(" ".into()),
                    Node::Element {
                        tag: "br".into(),
                        attrs: vec![],
                        children: vec![],
                        self_closing: true
                    },
                    Node::Text(" ".into()),
                ]
            ),
            Node::Text("\n tail".into()),
        ]
    );
}

#[test]
fn unclosed_and_mismatched_tags_are_read_leniently() {
    // An unclosed element is closed at the end.
    assert_eq!(
        parse_template_to_ast("<a><b>x").unwrap(),
        vec![el("a", vec![], vec![el("b", vec![], vec![Node::Text("x".into())])])]
    );
    // A closing tag drops the elements opened inside the one it closes.
    assert_eq!(
        parse_template_to_ast("<a><b>x</a>y").unwrap(),
        vec![el("a", vec![], vec![]), Node::Text("y".into())]
    );
    // A closing tag that matches nothing drops every open element.
    assert_eq!(
        parse_template_to_ast("<a>x</c>y").unwrap(),
        vec![Node::Text("y".into())]
    );
    assert_eq!(parse_template_to_ast("").unwrap(), vec![]);
    assert_eq!(parse_template_to_ast("  \n ").unwrap(), vec![]);
    // An interpolation that is never closed loses its last character to the text behind it.
    assert_eq!(
        parse_template_to_ast("{{ ab").unwrap(),
        vec![Node::Interpolation("a".into()), Node::Text("b".into())]
    );
    // Characters outside the basic alphabet are passed over inside a tag and kept in texts.
    assert_eq!(
        parse_template_to_ast("<p é\u{a0}x>é</p\u{a0}>").unwrap(),
        vec![
            el("p", vec![attr("x", None, AttrKind::Static)], vec![Node::Text("é".into())]),
            Node::Text("\u{a0}>".into()),
        ]
    );
}

#[test]
fn tokens_and_scanners() {
    let v = chars("<a  b=\"1\">t</a >{{ e }}");
    assert_eq!(
        tokenize(&v),
        vec![
            Token::Open {
                tag: "a".into(),
                attrs: vec![attr("b", Some("1"), AttrKind::Static)],
                self_closing: false
            },
            Token::Text("t".into()),
            Token::Close("a".into()),
            Token::Interpolation("e".into()),
        ]
    );
    assert_eq!(skip_ws(&chars(" \t\nx"), 0), 3);
    assert_eq!(skip_ws(&chars("\u{a0}x"), 0), 0);
    assert_eq!(read_ident(&chars("ab-c_1 d"), 0), ("ab-c_1".to_string(), 6));
    assert_eq!(read_quoted(&chars("'a\"b' c"), 0), (Some("a\"b".to_string()), 5));
    assert_eq!(read_quoted(&chars("\"open"), 0), (Some("open".to_string()), 5));
    assert_eq!(read_quoted(&chars("x"), 0), (None, 0));
    assert_eq!(
        read_attribute(&chars(":v = 'e' z"), 0),
        (Some(attr("v", Some("e"), AttrKind::Bind)), 8)
    );
    assert_eq!(
        read_attribute(&chars("v-elseIf=x"), 0),
        (Some(attr("else-if", None, AttrKind::Directive)), 9)
    );
    assert_eq!(read_attribute(&chars("=x"), 0), (None, 0));
}

#[test]
fn directive_names_are_normalized() {
    let n = |s: &str| normalize_directive_name(&chars(s));
    assert_eq!(n("if"), "if");
    assert_eq!(n("elseIf"), "else-if");
    assert_eq!(n("else_if"), "else-if");
    assert_eq!(n("Else__If-"), "else-if");
    assert_eq!(n("--"), "");
    assert_eq!(n("ÉA"), "É-a");
}
