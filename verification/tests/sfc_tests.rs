use velox::sfc::{has_bool_attr, parse_sfc, strip_quotes, Attr, Sfc, StyleBlock, TemplateBlock};

#[test]
fn splits_basic_sfc() {
    let src = r#"
<template id="root">
  <div class="app">{{ count }}</div>
</template>
<script setup lang="rs">
  // rust setup
</script>
<script>
  // regular script
</script>
<style scoped>
  .app { color: red; }
</style>
"#;

    let sfc = parse_sfc(src).expect("parse ok");
    let tpl = sfc.template.expect("template");
    assert!(tpl.content.contains("{{ count }}"));
    assert!(tpl
        .attrs
        .iter()
        .any(|a| a.name == "id" && a.value.as_deref() == Some("root")));

    let ss = sfc.script_setup.expect("script_setup");
    assert!(ss.setup);
    assert!(ss.content.contains("rust setup"));

    let sc = sfc.script.expect("script");
    assert!(!sc.setup);
    assert!(sc.content.contains("regular script"));

    let st = sfc.style.expect("style");
    assert!(st.content.contains(".app"));
    assert!(st.attrs.iter().any(|a| a.name == "scoped"));
}

#[test]
fn blocks_are_split_exactly() {
    let sfc = parse_sfc("<style a = 'x' b>s1</style>\t<template>\n<p>hi</p> </template><style>s2</style>")
        .unwrap();
    assert_eq!(
        sfc,
        Sfc {
            template: Some(TemplateBlock { attrs: vec![], content: "\n<p>hi</p> ".into() }),
            script_setup: None,
            script: None,
            style: Some(StyleBlock { attrs: vec![], content: "s2".into() }),
        }
    );
    let sfc = parse_sfc("<style a = 'x' b>s1</style>").unwrap();
    assert_eq!(
        sfc.style.unwrap().attrs,
        vec![
            Attr { name: "a".into(), value: Some("x".into()) },
            Attr { name: "b".into(), value: None },
        ]
    );
    assert_eq!(parse_sfc("  \n").unwrap(), Sfc::default());
}

#[test]
fn what_is_no_block_is_refused() {
    for bad in [
        "text",
        "<template>never closed",
        "<template x=>a</template>",
        "<template x='open>a</template>",
        "<div></div>",
        "<style></style> tail",
        "<template",
        "<script ?></script>",
    ] {
        assert!(parse_sfc(bad).is_err(), "{bad:?}");
    }
}

#[test]
fn quotes_are_stripped_in_pairs() {
    assert_eq!(strip_quotes("\"a\""), "a");
    assert_eq!(strip_quotes("'a'"), "a");
    assert_eq!(strip_quotes("\"a'"), "\"a'");
    assert_eq!(strip_quotes("\""), "\"");
    assert_eq!(strip_quotes("\"\""), "");
    assert_eq!(strip_quotes("a"), "a");
    let attrs = vec![Attr { name: "setup".into(), value: None }];
    assert!(has_bool_attr(&attrs, "setup"));
    assert!(!has_bool_attr(&attrs, "scoped"));
}
