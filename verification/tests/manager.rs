use lvim_zpm::host::{
    Effect, Event, EventType, PermissionStatus, PermissionType, PipeMessage, PipeSource,
    SessionInfo,
};
use lvim_zpm::script::{grant_script, manifest_script, report_script, sync_script};
use lvim_zpm::state::{client_arrived, State};
use lvim_zpm::verb::Verb;

fn step(tag: &str, script: &str) -> Effect {
    Effect::RunCommand {
        command: vec!["sh".to_string(), "-c".to_string(), script.to_string()],
        context: vec![("zpm_step".to_string(), tag.to_string())],
    }
}

fn live(config: &str) -> Effect {
    Effect::Reconfigure { config: config.to_string(), save: false }
}

fn log(line: &str) -> Effect {
    Effect::Log(line.to_string())
}

fn update(state: &mut State, event: Event) -> Vec<Effect> {
    let mut effects = Vec::new();
    assert!(!state.update(event, 2, &mut effects), "there is never anything to render");
    effects
}

fn granted(state: &mut State) -> Vec<Effect> {
    update(state, Event::PermissionRequestResult(PermissionStatus::Granted))
}

fn result(state: &mut State, tag: &str, stdout: &[u8]) -> Vec<Effect> {
    let context = vec![
        ("other".to_string(), "x".to_string()),
        ("zpm_step".to_string(), tag.to_string()),
    ];
    update(state, Event::RunCommandResult(Some(0), stdout.to_vec(), Vec::new(), context))
}

fn sessions(state: &mut State, clients: usize) -> Vec<Effect> {
    let other = SessionInfo { is_current_session: false, connected_clients: 9 };
    let here = SessionInfo { is_current_session: true, connected_clients: clients };
    update(state, Event::SessionUpdate(vec![other, here]))
}

fn cli(state: &mut State, name: &str) -> Vec<Effect> {
    let mut effects = Vec::new();
    let message =
        PipeMessage { source: PipeSource::Cli("id".to_string()), name: name.to_string() };
    assert!(!state.pipe(message, &mut effects), "there is never anything to render");
    effects
}

fn answer(name: &str, what: &str) -> Vec<Effect> {
    vec![
        Effect::CliPipeOutput {
            id: "id".to_string(),
            output: format!(
                "lvim-zpm: {name} {what} — report: ~/.config/zellij/zpm/last-report (and the zellij log)\n"
            ),
        },
        Effect::UnblockCliPipeInput { id: "id".to_string() },
    ]
}

const MANIFEST: &[u8] = b"/home/u\nplugins {\n  \"o/keys\"\n  \"file:/l/bar\"\n  \"o/none\"\n}\n";

const SYNCED: &[u8] = b"@@FAIL none clone failed\n===PLUGIN keys\nwasm \"k.wasm\"\npermissions \"P\"\nkeybinds { \"{{wasm}}\" }\n===PLUGIN bar\nwasm \"b.wasm\"\nlink \"bar.wasm\"\n===PLUGIN none\n@@NOMANIFEST@@\n";

const KEYS: &str = "keybinds { \"file:/home/u/.config/zellij/zpm/plugins/keys/k.wasm\" }";

/// A manager that has gone through the run of a session start.
fn started() -> State {
    let mut state = State::default();
    granted(&mut state);
    result(&mut state, "manifest", MANIFEST);
    result(&mut state, "sync", SYNCED);
    result(&mut state, "grant", b"");
    state
}

/// A client coming in raises the count; that and only that re-applies. The first update sets
/// the baseline, and a client leaving is not a reason to touch anything.
#[test]
fn only_a_rise_in_clients_is_an_arrival() {
    assert!(!client_arrived(None, 1), "the first update is the baseline");
    assert!(client_arrived(Some(0), 1), "a detached session getting its client back");
    assert!(client_arrived(Some(1), 2), "a second terminal attaching");
    assert!(!client_arrived(Some(1), 1), "a pane moved, nobody came");
    assert!(!client_arrived(Some(2), 1), "a client left");
}

#[test]
fn loading_asks_and_subscribes() {
    let mut state = State::default();
    let mut effects = Vec::new();
    state.load(&mut effects);
    assert_eq!(
        effects,
        vec![
            Effect::RequestPermission(vec![
                PermissionType::RunCommands,
                PermissionType::Reconfigure,
                PermissionType::ReadCliPipes,
                PermissionType::ReadApplicationState,
            ]),
            Effect::Subscribe(vec![
                EventType::RunCommandResult,
                EventType::PermissionRequestResult,
                EventType::SessionUpdate,
            ]),
        ]
    );
}

#[test]
fn session_start_installs() {
    let mut state = State::default();
    assert_eq!(granted(&mut state), vec![step("manifest", &manifest_script())]);
    assert!(state.permitted && state.busy);
    assert_eq!(state.verb, Some(Verb::Install));
    assert!(granted(&mut state).is_empty(), "only once");
}

#[test]
fn an_update_counts_as_the_grant() {
    let mut state = State::default();
    assert_eq!(sessions(&mut state, 1), vec![step("manifest", &manifest_script())]);
    assert_eq!(state.verb, Some(Verb::Install));
    assert_eq!(state.clients, Some(1));
    assert!(granted(&mut state).is_empty());
}

#[test]
fn a_denial_is_logged() {
    let mut state = State::default();
    assert_eq!(
        update(&mut state, Event::PermissionRequestResult(PermissionStatus::Denied)),
        vec![log("lvim-zpm: permissions denied — the manager can do nothing")]
    );
    assert!(!state.permitted);
}

#[test]
fn an_install_from_start_to_end() {
    let mut state = State::default();
    granted(&mut state);

    let effects = result(&mut state, "manifest", MANIFEST);
    assert_eq!(state.home, "/home/u");
    let names: Vec<&str> = state.plugins.iter().map(|p| p.name.as_str()).collect();
    assert_eq!(names, vec!["keys", "bar", "none"]);
    assert_eq!(effects, vec![step("sync", &sync_script(Verb::Install, &state.plugins))]);

    let effects = result(&mut state, "sync", SYNCED);
    assert_eq!(effects, vec![step("grant", &grant_script(&state.plugins))]);
    assert!(state.busy);

    let effects = result(&mut state, "grant", b"");
    let report = "lvim-zpm install (client 2):\n  ✓ keys [o/keys] — keybinds applied\n  ✓ (layout plugin) bar [/l/bar] — wasm installed\n  ✗ no zpm.kdl manifest none [o/none]\n  ✗ none clone failed";
    assert_eq!(effects, vec![live(KEYS), log(report), step("report", &report_script(report))]);
    assert_eq!(state.applied, vec![KEYS]);
    assert!(!state.busy);
    assert_eq!(state.verb, None);
    assert!(result(&mut state, "report", b"").is_empty());
}

#[test]
fn an_empty_manifest_ends_the_run() {
    let mut state = State::default();
    granted(&mut state);
    let effects = result(&mut state, "manifest", b"/home/u\n");
    let report = "lvim-zpm: nothing to manage — list plugins in ~/.config/zellij/zpm.kdl (\"owner/repo\" or \"file:/abs/dir\")";
    assert_eq!(effects, vec![log(report), step("report", &report_script(report))]);
    assert!(!state.busy);
}

#[test]
fn output_without_a_line_feed_is_all_manifest() {
    let mut state = State::default();
    granted(&mut state);
    result(&mut state, "manifest", b"\"file:/a\"");
    assert_eq!(state.home, "");
    assert_eq!(state.plugins.len(), 1);
}

#[test]
fn output_is_read_as_utf8() {
    let mut state = State::default();
    granted(&mut state);
    result(&mut state, "manifest", b"/home/\xffu\n\"file:/\xe2\x9c\x93\"\n");
    assert_eq!(state.home, "/home/\u{fffd}u");
    assert_eq!(state.plugins[0].name, "✓");
}

#[test]
fn every_manifest_reaches_its_plugin() {
    let mut state = State::default();
    granted(&mut state);
    result(&mut state, "manifest", b"/h\n\"o/a\" \"o/b\"\n");
    result(&mut state, "sync", b"noise\n===PLUGIN b\nwasm \"1\"\n===PLUGIN x\nwasm \"2\"\n===PLUGIN a\nwasm \"3\"\n");
    assert_eq!(state.plugins[0].wasm.as_deref(), Some("/h/.config/zellij/zpm/plugins/a/3"));
    assert_eq!(state.plugins[1].wasm.as_deref(), Some("/h/.config/zellij/zpm/plugins/b/1"));
    assert_eq!(state.plugins.len(), 2);
}

/// Plugins of one name in different directories: each reads its own section.
#[test]
fn plugins_of_one_name_read_their_own_manifests() {
    let mut state = State::default();
    granted(&mut state);
    result(&mut state, "manifest", b"/h\n\"file:/a/x\" \"file:/b/x\" \"o/x \"\n");
    result(
        &mut state,
        "sync",
        b"===PLUGIN x\nwasm \"1.wasm\"\n===PLUGIN x\nwasm \"2.wasm\"\n===PLUGIN x \nwasm \"3.wasm\"\n",
    );
    assert_eq!(state.plugins[0].wasm.as_deref(), Some("/a/x/1.wasm"));
    assert_eq!(state.plugins[1].wasm.as_deref(), Some("/b/x/2.wasm"));
    assert_eq!(
        state.plugins[2].wasm.as_deref(),
        Some("/h/.config/zellij/zpm/plugins/x /3.wasm")
    );
}

/// A check is about clones: a local plugin of the same name is left alone.
#[test]
fn a_check_reaches_the_clones_of_its_name() {
    let mut state = started();
    cli(&mut state, "check");
    result(&mut state, "manifest", b"/h\n\"file:/a/x\" \"o/x\" \"p/x\"\n");
    result(&mut state, "sync", b"@@CHECK x diff\n");
    assert_eq!(state.plugins[0].check, None);
    assert_eq!(state.plugins[1].check.as_deref(), Some("diff"));
    assert_eq!(state.plugins[2].check.as_deref(), Some("diff"));
}

/// Status says of a plugin that its keybinds are applied if, and only if, they are.
#[test]
fn status_tells_what_is_applied() {
    let mut reports = Vec::new();
    for applied in [vec!["other".to_string(), KEYS.to_string()], vec!["other".to_string()]] {
        let mut state = started();
        cli(&mut state, "status");
        result(&mut state, "manifest", MANIFEST);
        state.applied = applied;
        reports.push(result(&mut state, "sync", SYNCED).remove(0));
    }
    let rest = "\n  ✓ (layout plugin) bar [/l/bar]\n  ✗ no zpm.kdl manifest none [o/none]\n  ✗ none clone failed";
    let head = "lvim-zpm status (client 2):\n  ✓ keys [o/keys]";
    assert_eq!(reports[0], log(&format!("{head} — keybinds applied{rest}")));
    assert_eq!(reports[1], log(&format!("{head}{rest}")));
}

#[test]
fn a_removed_entry_is_gone() {
    let mut state = started();
    cli(&mut state, "install");
    result(&mut state, "manifest", b"/home/u\n\"file:/l/bar\"\n");
    result(&mut state, "sync", b"===PLUGIN bar\nwasm \"b.wasm\"\n");
    let effects = result(&mut state, "grant", b"");
    let report = "lvim-zpm install (client 2):\n  ✓ (no keybinds) bar [/l/bar]";
    assert_eq!(effects, vec![log(report), step("report", &report_script(report))]);
    assert!(state.applied.is_empty());
}

#[test]
fn an_attaching_client_gets_the_keybinds_back() {
    let mut state = started();
    assert!(sessions(&mut state, 1).is_empty(), "the first update sets the baseline");
    let back = vec![live(KEYS), log("lvim-zpm: client 2 attached — keybinds re-applied")];
    assert_eq!(sessions(&mut state, 2), back);
    assert!(sessions(&mut state, 2).is_empty());
    assert!(sessions(&mut state, 0).is_empty());
    cli(&mut state, "status");
    assert_eq!(sessions(&mut state, 1), back, "also during a run");
}

#[test]
fn an_attaching_client_starts_a_run_if_nothing_is_applied() {
    let mut state = State::default();
    sessions(&mut state, 0);
    assert!(sessions(&mut state, 1).is_empty(), "a run is going on");
    result(&mut state, "manifest", b"/h\n");
    assert_eq!(sessions(&mut state, 2), vec![step("manifest", &manifest_script())]);
    assert_eq!(state.verb, Some(Verb::Install));
}

#[test]
fn other_sessions_do_not_count() {
    let mut state = started();
    let other = SessionInfo { is_current_session: false, connected_clients: 9 };
    assert!(update(&mut state, Event::SessionUpdate(vec![other])).is_empty());
    assert_eq!(state.clients, None);
    assert!(update(&mut state, Event::Other).is_empty());
}

#[test]
fn status_only_looks() {
    let mut state = started();
    let mut expected = answer("status", "running");
    expected.push(step("manifest", &manifest_script()));
    assert_eq!(cli(&mut state, "status"), expected);
    let effects = result(&mut state, "manifest", MANIFEST);
    assert_eq!(effects, vec![step("sync", &sync_script(Verb::Status, &state.plugins))]);
    let effects = result(&mut state, "sync", SYNCED);
    let report = "lvim-zpm status (client 2):\n  ✓ keys [o/keys] — keybinds applied\n  ✓ (layout plugin) bar [/l/bar]\n  ✗ no zpm.kdl manifest none [o/none]\n  ✗ none clone failed";
    assert_eq!(effects, vec![log(report), step("report", &report_script(report))]);
    assert_eq!(state.applied, vec![KEYS], "what was applied stays applied");
}

#[test]
fn check_reports_who_has_updates() {
    let mut state = started();
    cli(&mut state, "check");
    result(&mut state, "manifest", b"/h\n\"o/a\" \"o/b\" \"o/c\" \"file:/d\"\n");
    let effects = result(
        &mut state,
        "sync",
        b"@@CHECK a same\n@@CHECK b diff \n@@CHECK c unknown\n@@CHECK x same\n@@CHECK\n===PLUGIN a\nwasm \"w\"\n",
    );
    let report = "lvim-zpm check (client 2):\n  ✓ (no keybinds) a [o/a] — up to date\n   b [o/b] — UPDATE AVAILABLE (run update)\n   c [o/c] — could not check\n   d [/d] — local, nothing to check";
    assert_eq!(effects, vec![log(report), step("report", &report_script(report))]);
}

#[test]
fn verbs_during_a_run_are_queued_and_the_latest_wins() {
    let mut state = State::default();
    granted(&mut state);
    assert_eq!(cli(&mut state, "check"), answer("check", "queued behind the current run"));
    assert_eq!(cli(&mut state, "update"), answer("update", "queued behind the current run"));
    assert_eq!(state.queued, Some(Verb::Update));
    assert_eq!(state.verb, Some(Verb::Install));
    let effects = result(&mut state, "manifest", b"/h\n");
    assert_eq!(effects.len(), 3);
    assert_eq!(effects[2], step("manifest", &manifest_script()));
    assert!(state.busy);
    assert_eq!(state.verb, Some(Verb::Update));
    assert_eq!(state.queued, None);
}

#[test]
fn verbs_wait_for_permissions() {
    let mut state = State::default();
    assert_eq!(cli(&mut state, "install"), answer("install", "waiting for permissions"));
    assert!(!state.busy);
    assert_eq!(state.queued, None);
}

#[test]
fn foreign_messages_are_ignored() {
    let mut state = started();
    assert!(cli(&mut state, "statusx").is_empty());
    assert!(!state.busy);
}

#[test]
fn only_command_lines_are_answered() {
    for source in [PipeSource::Plugin(3), PipeSource::Keybind] {
        let mut state = started();
        let mut effects = Vec::new();
        state.pipe(PipeMessage { source, name: "update".to_string() }, &mut effects);
        assert_eq!(effects, vec![step("manifest", &manifest_script())]);
        assert_eq!(state.verb, Some(Verb::Update));
    }
}

#[test]
fn effects_are_added_behind_those_that_wait() {
    let mut state = State::default();
    let mut effects = vec![log("first")];
    state.begin(Verb::Status, &mut effects);
    assert_eq!(effects, vec![log("first"), step("manifest", &manifest_script())]);
}

#[test]
fn results_without_a_tag_are_ignored() {
    let mut state = State::default();
    granted(&mut state);
    assert!(update(&mut state, Event::RunCommandResult(None, Vec::new(), Vec::new(), Vec::new())).is_empty());
    assert!(state.busy);
}

#[test]
fn names_of_verbs() {
    for verb in [Verb::Status, Verb::Check, Verb::Install, Verb::Update] {
        assert_eq!(Verb::from_name(verb.name()), Some(verb));
    }
    assert_eq!(Verb::from_name(""), None);
}

#[test]
fn a_report_says_whose_it_is() {
    let mut reports = Vec::new();
    for client in [1, 2, 21] {
        let mut state = State::default();
        let mut effects = Vec::new();
        state.finish(client, &mut effects);
        reports.push(effects.remove(0));
    }
    assert_eq!(
        reports,
        vec![
            log("lvim-zpm install (client 1):"),
            log("lvim-zpm install (client 2):"),
            log("lvim-zpm install (client 21):"),
        ]
    );
}

/// Plays many courses of inputs against a host that ends the steps in the order in which they
/// were started: there is one step in flight while the manager is busy, and none while it is not.
/// Nothing is ever saved to the configuration file.
#[test]
fn runs_are_serialized() {
    for seed in 0..2000u32 {
        let mut choices = seed;
        let mut state = State::default();
        let mut flying: Vec<String> = Vec::new();
        for _ in 0..12 {
            let choice = choices % 6;
            choices = choices / 6 + choices.wrapping_mul(7919) % 1009;
            let effects = match choice {
                0 => granted(&mut state),
                1 => sessions(&mut state, (choices % 3) as usize),
                2 => cli(&mut state, "status"),
                3 => cli(&mut state, "update"),
                _ => {
                    if flying.is_empty() {
                        continue;
                    }
                    let tag = flying.remove(0);
                    let stdout = if tag == "manifest" { MANIFEST } else { SYNCED };
                    result(&mut state, &tag, stdout)
                }
            };
            for effect in effects {
                match effect {
                    Effect::RunCommand { context, .. } => {
                        if context[0].1 != "report" {
                            flying.push(context[0].1.clone());
                        }
                    }
                    Effect::Reconfigure { save, .. } => assert!(!save),
                    _ => {}
                }
            }
            assert_eq!(flying.len(), if state.busy { 1 } else { 0 });
            assert_eq!(state.busy, state.verb.is_some());
            assert!(state.permitted || !state.busy);
            assert!(state.busy || state.queued.is_none());
        }
    }
}
