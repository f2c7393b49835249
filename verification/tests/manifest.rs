use lvim_zpm::manifest::{keybinds_block, parse_user_manifest, quoted, uncommented};

#[test]
fn quoted_strings_of_a_line() {
    assert_eq!(quoted("bind \"Ctrl h\" { x \"y\"; }"), vec!["Ctrl h", "y"]);
    assert_eq!(quoted("a \"\" \"open"), vec![""]);
    assert!(quoted("none").is_empty());
    assert_eq!(quoted("\"—\"\"✓\""), vec!["—", "✓"]);
}

#[test]
fn two_quotes_make_a_string() {
    let line = "a\"b\"c\"d\"e\"f";
    assert_eq!(quoted(line), vec!["b", "d"]);
    assert!(quoted(line).iter().all(|q| !q.contains('"')));
}

#[test]
fn comments_are_stripped_outside_of_strings() {
    assert_eq!(uncommented("wasm \"a//b\" // c"), "wasm \"a//b\" ");
    assert_eq!(uncommented("// all"), "");
    assert_eq!(uncommented("a / b"), "a / b");
    assert_eq!(uncommented("a /"), "a /");
    assert_eq!(uncommented("✓///x"), "✓");
    assert_eq!(uncommented("\"open // x"), "\"open // x");
    assert_eq!(uncommented(uncommented("a // b // c")), "a ");
}

#[test]
fn the_documented_user_manifest() {
    let text = "plugins {\n    \"lvim-tech/lvim-winnav\"            // cloned from GitHub into ~/.config\n    // \"file:/abs/path/to/a/local/repo\"  // a local repo, used in place\n}\n";
    assert_eq!(parse_user_manifest(text), vec!["lvim-tech/lvim-winnav"]);
}

#[test]
fn listed_entries_are_read_back() {
    let entries = ["owner/repo", "file:/home/u/x//y", "a b", "—"];
    let mut text = String::new();
    for e in entries {
        text.push_str(&format!("    \"{}\"\n", e));
    }
    assert_eq!(parse_user_manifest(&text), entries);
    assert!(parse_user_manifest("").is_empty());
    assert_eq!(parse_user_manifest("\"\" \"a\" \"b\"\r\n\"c\""), vec!["a", "b", "c"]);
}

#[test]
fn comments_name_no_plugins() {
    assert_eq!(parse_user_manifest("\"a\" // \"b\""), parse_user_manifest("\"a\" "));
    assert_eq!(parse_user_manifest("\"a\""), vec!["a"]);
}

#[test]
fn the_keybinds_node_is_found() {
    let text = "// keybinds { not this }\nplugin {\n    wasm \"a.wasm\"\n    keybinds {\n        bind \"Ctrl h\" { MessagePlugin \"{{wasm}}\" { name \"}\"; }; }\n    }\n}\n";
    assert_eq!(
        keybinds_block(text),
        Some(
            "keybinds {\n        bind \"Ctrl h\" { MessagePlugin \"{{wasm}}\" { name \"}\"; }; }\n    }"
                .to_string()
        )
    );
}

#[test]
fn a_keybinds_node_may_be_missing_or_broken() {
    assert_eq!(keybinds_block(""), None);
    assert_eq!(keybinds_block("wasm \"keybinds\" {}"), None);
    assert_eq!(keybinds_block("keybinds"), None);
    assert_eq!(keybinds_block("keybinds { { }"), None);
    assert_eq!(keybinds_block("keybinds { \"}"), None);
    assert_eq!(keybinds_block("keybindsx {}\nkeybinds\n{ ✓ } }"), Some("keybinds { ✓ }".to_string()));
}

#[test]
fn strings_cannot_derail_a_block() {
    let a = keybinds_block("keybinds { \"aaaa\" } x").unwrap();
    let b = keybinds_block("keybinds { \"}{{}\" } x").unwrap();
    assert_eq!(a, "keybinds { \"aaaa\" }");
    assert_eq!(b, "keybinds { \"}{{}\" }");
}

#[test]
fn a_block_is_stable() {
    let text = "wasm \"a\"\n  keybinds { bind \"}\" { x; } }/";
    let block = keybinds_block(text);
    assert_eq!(block.as_deref(), Some("keybinds { bind \"}\" { x; } }"));
    for more in ["/ }", "\nkeybinds { y }", "\"", "}}"] {
        assert_eq!(keybinds_block(&format!("{text}{more}")), block);
    }
    assert_eq!(keybinds_block(block.as_deref().unwrap()), block);
}
