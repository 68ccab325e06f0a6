use velox::cli::{
    add_member, assemble, dev_step, to_stub_rs, DevAction, DevEvent, EmitMode, MemberUpdate,
};
use velox::sfc::parse_sfc;
use velox::paint::{parse_font_family, z_index_for_props};
use velox::dom::Props;

#[test]
fn stub_mode_emits_the_constants_only() {
    assert_eq!(assemble(EmitMode::Stub, "pub const A: u8 = 1;", "<p/>", "App").unwrap(), "pub const A: u8 = 1;");
}

#[test]
fn render_mode_adds_the_render_function() {
    let code = assemble(EmitMode::Render, "STUB", "", "App").unwrap();
    assert_eq!(
        code,
        "STUB\npub fn render() -> velox_dom::VNode {\n    use velox_dom::*;\n    text(\"\")\n}\n"
    );
    let code = assemble(EmitMode::Render, "", "<p>a</p>", "App").unwrap();
    assert!(code.contains("pub fn render()"));
    assert!(code.contains("h(\"p\", Props::new(), vec![text(\"a\")])"));
}

#[test]
fn a_member_is_added_before_the_end_of_the_array() {
    let txt = "[workspace]\nmembers = [\n    \"a\",\n]\nother = []\n";
    assert_eq!(
        add_member(txt, "examples/x"),
        MemberUpdate::Added(
            "[workspace]\nmembers = [\n    \"a\",\n\n    \"examples/x\",\n]\nother = []\n".into()
        )
    );
    assert_eq!(add_member(txt, "a"), MemberUpdate::Present);
    assert_eq!(add_member("[package]\nname = \"p\"\n", "m"), MemberUpdate::NoMembersArray);
    assert_eq!(add_member("members = [ \"q\"", "m"), MemberUpdate::NoMembersArray);
    // A closing bracket counts only behind the array's name.
    assert_eq!(
        add_member("x = []", "m"),
        MemberUpdate::NoMembersArray
    );
    assert_eq!(add_member("", "m"), MemberUpdate::NoMembersArray);
}

#[test]
fn the_first_font_family_is_read() {
    assert_eq!(parse_font_family(" \"Fira Sans\" , serif"), Some("Fira Sans".to_string()));
    assert_eq!(parse_font_family("'Noto'"), Some("Noto".to_string()));
    assert_eq!(parse_font_family("mono"), Some("mono".to_string()));
    assert_eq!(parse_font_family("\"' a '\""), Some("a".to_string()));
    assert_eq!(parse_font_family("'\"a\"'"), Some("\"a\"".to_string()));
    assert_eq!(parse_font_family(" , x"), None);
    assert_eq!(parse_font_family("\"\""), None);
    assert_eq!(parse_font_family(""), None);
}

#[test]
fn the_stacking_order_is_the_first_number_declared() {
    let z = |style: &str| z_index_for_props(&Props::new().set("style", style));
    assert_eq!(z("z-index: 3"), 3);
    assert_eq!(z("color: red; z-index : -2 ; z-index: 9"), -2);
    assert_eq!(z("z-index: auto; z-index: 4"), 4);
    assert_eq!(z("z-index: 1.5"), 0);
    assert_eq!(z("width: 3px"), 0);
    assert_eq!(z_index_for_props(&Props::new()), 0);
}

#[test]
fn the_stub_holds_the_blocks_as_constants() {
    let sfc = parse_sfc("<template><p>\"hi\"</p></template><style>.a { }\n</style>").unwrap();
    assert_eq!(
        to_stub_rs(&sfc, "MyApp"),
        "pub mod myapp {\n    pub const TEMPLATE: &str = \"<p>\\\"hi\\\"</p>\";\n    pub const SCRIPT_SETUP: &str = \"\";\n    pub const SCRIPT: &str = \"\";\n    pub const STYLE: &str = \".a { }\\n\";\n}\n"
    );
    assert!(to_stub_rs(&sfc, "App").contains("pub const TEMPLATE"));
}

#[test]
fn dev_loop_decides_by_key_change_and_exit() {
    assert_eq!(dev_step(DevEvent::Key('r'), 7), (DevAction::Reload, 7));
    assert_eq!(dev_step(DevEvent::Key('R'), 7), (DevAction::Reload, 7));
    assert_eq!(dev_step(DevEvent::Key('q'), 7), (DevAction::Quit, 7));
    assert_eq!(dev_step(DevEvent::Key('Q'), 7), (DevAction::Quit, 7));
    assert_eq!(dev_step(DevEvent::Key('x'), 7), (DevAction::Nothing, 7));
    assert_eq!(dev_step(DevEvent::Modified(8), 7), (DevAction::Rebuild, 8));
    assert_eq!(dev_step(DevEvent::Modified(7), 7), (DevAction::Nothing, 7));
    assert_eq!(dev_step(DevEvent::Modified(3), 7), (DevAction::Nothing, 7));
    assert_eq!(dev_step(DevEvent::Exited(true), 7), (DevAction::Stop, 7));
    assert_eq!(dev_step(DevEvent::Exited(false), 7), (DevAction::Fail, 7));
}
