use lvim_zpm::plugin::Managed;

const KEYBIND_PLUGIN: &str = "plugin {\n    wasm \"zellij/my-plugin.wasm\"                       // the BUILT wasm, relative to the repo\n    permissions \"ReadApplicationState\" \"WriteToStdin\"   // pre-granted\n    keybinds {\n        normal {\n            bind \"Ctrl h\" { MessagePlugin \"{{wasm}}\" { name \"move\"; payload \"left\"; }; }\n        }\n    }\n}\n";

const LAYOUT_PLUGIN: &str = "plugin {\n    wasm \"my-bar.wasm\"\n    link \"my-bar.wasm\"          // installed as ~/.config/zellij/plugins/my-bar.wasm\n    permissions \"ReadApplicationState\"\n}\n";

fn plugin(root: &str) -> Managed {
    Managed::new("p".to_string(), None, root.to_string())
}

#[test]
fn a_new_plugin_is_blank() {
    let m = Managed::default();
    assert_eq!(m.name, "");
    assert_eq!(m.github, None);
    assert_eq!(m.target(), None);
    assert!(m.permissions.is_empty());
}

#[test]
fn the_documented_keybind_plugin() {
    let mut m = plugin("/r");
    m.read_manifest(KEYBIND_PLUGIN, "/home/u");
    assert_eq!(m.wasm.as_deref(), Some("/r/zellij/my-plugin.wasm"));
    assert_eq!(m.permissions, vec!["ReadApplicationState", "WriteToStdin"]);
    assert_eq!(m.link, None);
    assert_eq!(m.installed, None);
    assert_eq!(m.target().as_deref(), Some("/r/zellij/my-plugin.wasm"));
    assert_eq!(
        m.keybinds.as_deref(),
        Some("keybinds {\n        normal {\n            bind \"Ctrl h\" { MessagePlugin \"file:/r/zellij/my-plugin.wasm\" { name \"move\"; payload \"left\"; }; }\n        }\n    }")
    );
}

#[test]
fn the_documented_layout_plugin() {
    let mut m = plugin("/r");
    m.read_manifest(LAYOUT_PLUGIN, "/home/u");
    assert_eq!(m.wasm.as_deref(), Some("/r/my-bar.wasm"));
    assert_eq!(m.link.as_deref(), Some("my-bar.wasm"));
    assert_eq!(m.installed.as_deref(), Some("/home/u/.config/zellij/plugins/my-bar.wasm"));
    assert_eq!(m.target(), m.installed);
    assert_eq!(m.keybinds, None);
}

#[test]
fn a_link_points_the_keybinds_at_the_installed_copy() {
    let mut m = plugin("/r");
    m.read_manifest("wasm \"a.wasm\"\nlink \"b.wasm\"\nkeybinds { \"{{wasm}}\" }", "/home/u");
    assert_eq!(
        m.keybinds.as_deref(),
        Some("keybinds { \"file:/home/u/.config/zellij/plugins/b.wasm\" }")
    );
}

#[test]
fn later_lines_override() {
    let mut m = plugin("/r");
    m.read_manifest(
        "wasm \"a\"\nwasm \"b\" \"c\"\nwasm\nlink \"l\"\nlink\npermissions \"P\"\npermissions\nwasmx \"d\"",
        "/h",
    );
    assert_eq!(m.wasm.as_deref(), Some("/r/b"));
    assert_eq!(m.link, None);
    assert!(m.permissions.is_empty());
    assert_eq!(m.installed, None);
}

#[test]
fn sections_get_their_verdict() {
    let cases = [
        ("@@NOMANIFEST@@\n", "✗ no zpm.kdl manifest"),
        (KEYBIND_PLUGIN, "✓"),
        (LAYOUT_PLUGIN, "✓ (layout plugin)"),
        ("wasm \"a\"", "✓ (no keybinds)"),
        ("link \"a\"\nkeybinds { }", "✗ manifest names no wasm"),
    ];
    for (body, note) in cases {
        let mut m = plugin("/r");
        m.read_section(body, "/h");
        assert_eq!(m.note, note);
    }
}

#[test]
fn reading_twice_is_reading_once() {
    for text in [KEYBIND_PLUGIN, LAYOUT_PLUGIN, "wasm \"a\"\nlink\nkeybinds { \"{{wasm}}\" }"] {
        let mut once = plugin("/r");
        once.read_manifest(text, "/h");
        let mut twice = once.clone();
        twice.read_manifest(text, "/h");
        assert_eq!(twice.wasm, once.wasm);
        assert_eq!(twice.link, once.link);
        assert_eq!(twice.installed, once.installed);
        assert_eq!(twice.permissions, once.permissions);
        assert_eq!(twice.keybinds, once.keybinds);
    }
}
