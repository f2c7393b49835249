use lvim_zpm::plugin::Managed;
use lvim_zpm::script::{grant_script, manifest_script, plugin_for, report_script, sync_script};
use lvim_zpm::verb::Verb;

#[test]
fn the_manifest_step() {
    assert_eq!(
        manifest_script(),
        "mkdir -p \"$HOME/.config/zellij/zpm/plugins\"; echo \"$HOME\"; cat \"$HOME/.config/zellij/zpm.kdl\" 2>/dev/null"
    );
}

#[test]
fn entries_name_plugins() {
    let git = plugin_for("owner/repo", "/home/u");
    assert_eq!(git.name, "repo");
    assert_eq!(git.github.as_deref(), Some("owner/repo"));
    assert_eq!(git.root, "/home/u/.config/zellij/zpm/plugins/repo");
    let local = plugin_for("file:/abs/dir", "/home/u");
    assert_eq!(local.name, "dir");
    assert_eq!(local.github, None);
    assert_eq!(local.root, "/abs/dir");
}

#[test]
fn an_unknown_home_is_left_to_be_put_in() {
    let git = plugin_for("owner/repo", "");
    assert_eq!(git.root, "$HOME/.config/zellij/zpm/plugins/repo");
    assert_eq!(plugin_for("file:/abs/dir", "").root, "/abs/dir");
}

#[test]
fn clones_live_in_the_store() {
    let odd = plugin_for("o/r", "/home/a \"b\" $c");
    assert_eq!(odd.root, "/home/a \"b\" $c/.config/zellij/zpm/plugins/r");
    assert_eq!(
        sync_script(Verb::Status, &vec![odd]),
        "echo \"===PLUGIN r\"\ncat \"$HOME/.config/zellij/zpm/plugins/r/zpm.kdl\" 2>/dev/null || echo @@NOMANIFEST@@\n"
    );
}

#[test]
fn targets_are_absolute() {
    for entry in ["owner/repo", "file:/abs/dir"] {
        let mut m = plugin_for(entry, "/home/u");
        m.read_manifest("wasm \"a.wasm\"", "/home/u");
        assert!(m.target().unwrap().starts_with('/'));
    }
}

#[test]
fn the_sync_step_of_each_verb() {
    let plugins = vec![plugin_for("o/r", "/h")];
    let root = "$HOME/.config/zellij/zpm/plugins/r";
    let show = format!("echo \"===PLUGIN r\"\ncat \"{root}/zpm.kdl\" 2>/dev/null || echo @@NOMANIFEST@@\n");
    let clone = format!("if [ ! -d \"{root}/.git\" ]; then git clone --depth 1 \"https://github.com/o/r\" \"{root}\" >/dev/null 2>&1 || echo \"@@FAIL r clone failed\"; fi\n");
    let pull = format!("git -C \"{root}\" pull --ff-only >/dev/null 2>&1 || echo \"@@FAIL r pull failed\"\n");
    let check = format!("if [ -d \"{root}/.git\" ] && git -C \"{root}\" fetch -q origin >/dev/null 2>&1; then b=$(git -C \"{root}\" rev-parse --abbrev-ref HEAD 2>/dev/null); l=$(git -C \"{root}\" rev-parse HEAD 2>/dev/null); r=$(git -C \"{root}\" rev-parse \"origin/$b\" 2>/dev/null); if [ -n \"$l\" ] && [ \"$l\" = \"$r\" ]; then echo \"@@CHECK r same\"; else echo \"@@CHECK r diff\"; fi; else echo \"@@CHECK r unknown\"; fi\n");
    assert_eq!(sync_script(Verb::Status, &plugins), show);
    assert_eq!(sync_script(Verb::Check, &plugins), format!("{check}{show}"));
    assert_eq!(sync_script(Verb::Install, &plugins), format!("{clone}{show}"));
    assert_eq!(sync_script(Verb::Update, &plugins), format!("{clone}{pull}{show}"));
}

#[test]
fn local_plugins_are_used_in_place() {
    let plugins = vec![plugin_for("file:/a/b", "/h"), plugin_for("file:/c", "/h")];
    let shown = "echo \"===PLUGIN b\"\ncat \"/a/b/zpm.kdl\" 2>/dev/null || echo @@NOMANIFEST@@\necho \"===PLUGIN c\"\ncat \"/c/zpm.kdl\" 2>/dev/null || echo @@NOMANIFEST@@\n";
    for verb in [Verb::Status, Verb::Check, Verb::Install, Verb::Update] {
        assert_eq!(sync_script(verb, &plugins), shown);
    }
}

#[test]
fn the_grant_step() {
    let mut bare = Managed::new("n".to_string(), None, "/n".to_string());
    bare.read_manifest("permissions \"P\"", "/h");
    let mut plain = Managed::new("p".to_string(), None, "/p".to_string());
    plain.read_manifest("wasm \"p.wasm\"\npermissions \"A\" \"B\"", "/h");
    let mut bar = Managed::new("b".to_string(), None, "/b".to_string());
    bar.read_manifest("wasm \"b.wasm\"\nlink \"bar.wasm\"", "/h");
    assert_eq!(
        grant_script(&vec![bare, plain, bar]),
        concat_lines(&[
            "mkdir -p \"$HOME/.cache/zellij\"",
            "t=\"$HOME/.cache/zellij/permissions.kdl.zpm.$$\"",
            "awk -v k='\"/p/p.wasm\" {' 'BEGIN{s=0} index($0,k)==1{s=1;next} s{if($0~/^}/)s=0;next} {print}' \"$HOME/.cache/zellij/permissions.kdl\" 2>/dev/null > \"$t\"",
            "printf '\"%s\" {\\n    A\\n    B\\n}\\n' \"/p/p.wasm\" >> \"$t\"",
            "mv \"$t\" \"$HOME/.cache/zellij/permissions.kdl\"",
            "mkdir -p \"$HOME/.config/zellij/plugins\"",
            "cmp -s \"/b/b.wasm\" \"/h/.config/zellij/plugins/bar.wasm\" || cp \"/b/b.wasm\" \"/h/.config/zellij/plugins/bar.wasm\"",
        ])
    );
}

/// A clone's wasm is named by its place in the store, so that the shell puts the home directory in;
/// the key that is looked for is the real path, quoted for the shell.
#[test]
fn the_grant_step_of_a_clone() {
    let mut plain = plugin_for("o/r", "/h'");
    plain.read_manifest("wasm \"r.wasm\"\npermissions \"A\"", "/h'");
    assert_eq!(plain.target().as_deref(), Some("/h'/.config/zellij/zpm/plugins/r/r.wasm"));
    let mut bar = plugin_for("o/b", "/h");
    bar.read_manifest("wasm \"b.wasm\"\nlink \"bar.wasm\"\npermissions \"B\"", "/h");
    assert_eq!(
        grant_script(&vec![plain, bar]),
        concat_lines(&[
            "mkdir -p \"$HOME/.cache/zellij\"",
            "t=\"$HOME/.cache/zellij/permissions.kdl.zpm.$$\"",
            "awk -v k='\"/h'\\''/.config/zellij/zpm/plugins/r/r.wasm\" {' 'BEGIN{s=0} index($0,k)==1{s=1;next} s{if($0~/^}/)s=0;next} {print}' \"$HOME/.cache/zellij/permissions.kdl\" 2>/dev/null > \"$t\"",
            "printf '\"%s\" {\\n    A\\n}\\n' \"$HOME/.config/zellij/zpm/plugins/r/r.wasm\" >> \"$t\"",
            "mv \"$t\" \"$HOME/.cache/zellij/permissions.kdl\"",
            "mkdir -p \"$HOME/.config/zellij/plugins\"",
            "cmp -s \"$HOME/.config/zellij/zpm/plugins/b/b.wasm\" \"/h/.config/zellij/plugins/bar.wasm\" || cp \"$HOME/.config/zellij/zpm/plugins/b/b.wasm\" \"/h/.config/zellij/plugins/bar.wasm\"",
            "t=\"$HOME/.cache/zellij/permissions.kdl.zpm.$$\"",
            "awk -v k='\"/h/.config/zellij/plugins/bar.wasm\" {' 'BEGIN{s=0} index($0,k)==1{s=1;next} s{if($0~/^}/)s=0;next} {print}' \"$HOME/.cache/zellij/permissions.kdl\" 2>/dev/null > \"$t\"",
            "printf '\"%s\" {\\n    B\\n}\\n' \"/h/.config/zellij/plugins/bar.wasm\" >> \"$t\"",
            "mv \"$t\" \"$HOME/.cache/zellij/permissions.kdl\"",
        ])
    );
}

fn concat_lines(lines: &[&str]) -> String {
    let mut s = String::new();
    for line in lines {
        s.push_str(line);
        s.push('\n');
    }
    s
}

#[test]
fn the_report_gets_through_the_shell() {
    assert_eq!(
        report_script("it's 'so'"),
        "mkdir -p \"$HOME/.config/zellij/zpm\"; printf '%s\\n' 'it'\\''s '\\''so'\\''' > \"$HOME/.config/zellij/zpm/last-report\""
    );
}
