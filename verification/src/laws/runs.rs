//! What comes of every event, said of the event and of the effects that answer it: how a run
//! begins, goes on and ends, what it reads of the sync step's output, and what it applies.
use vstd::prelude::*;
use vstd::string::*;

use crate::host::{
    context_value, effect_views, step_command, step_of, Effect, EffectView, EventType, EventView,
    PermissionStatus, PermissionType, PipeMessageView, SessionInfo,
};
use crate::laws::{
    ends_run, law_every_manifest_reaches_its_plugin, law_names_of_a_run_fit_a_line,
    law_sync_changes_plugins_and_failures_only, law_sync_keeps_the_list, lemma_done_ends,
    lemma_marker, lemma_plugin_index, section_text, sync_output,
};
use crate::manifest::entries_of;
use crate::plugin::ManagedView;
use crate::plugin_laws::{lemma_lines_set_or_leave, lemma_read_lines_keep_rest};
use crate::script::{
    grant_script_of, manifest_script_of, plugin_of, report_script_of, sync_script_of, MANIFEST,
};
use crate::state::{
    apply_all, arrived, blocks_of, current_session, followed, nothing_to_manage, plugin_index,
    plugins_of, section_owner, section_parts, sections_of, StateView, Turn,
};
use crate::text::{
    contains, decimal, find, joined, lemma_find, lines_of, lossy, occurs_at, replaced, split_pair,
    trimmed, without_prefix,
};
use crate::text_laws::{
    law_a_text_is_split_at_the_first_separator, law_replacing_goes_from_left_to_right,
    law_splitting_undoes_joining, law_taking_off_a_prefix,
    law_without_a_separator_nothing_is_parted, lemma_split_pair,
};
use crate::verb::Verb;

verus! {

// ── steps ───────────────────────────────────────────────────────────────────────────────────────

/// A step is a script that the shell runs, sent with the step's name under the manager's key.
pub proof fn law_a_step_is_run_by_the_shell(step: Seq<char>, script: Seq<char>)
    ensures
        step_command(step, script) == (EffectView::RunCommand {
            command: seq!["sh"@, "-c"@, script],
            context: seq![("zpm_step"@, step)],
        }),
{
}

proof fn lemma_context_value(
    context: Seq<(Seq<char>, Seq<char>)>,
    key: Seq<char>,
    from: int,
    i: int,
)
    requires
        0 <= from <= i <= context.len(),
        forall|j: int| from <= j < i ==> (#[trigger] context[j]).0 != key,
    ensures
        context_value(context, key, from) == context_value(context, key, i),
    decreases i - from,
{
    if from < i {
        assert(context[from].0 != key);
        lemma_context_value(context, key, from + 1, i);
    }
}

/// A result belongs to the step that its context names first under the manager's key, and to none
/// if it names none.
pub proof fn law_a_result_names_its_step(context: Seq<(Seq<char>, Seq<char>)>, i: int)
    requires
        0 <= i <= context.len(),
        forall|j: int| 0 <= j < i ==> (#[trigger] context[j]).0 != "zpm_step"@,
    ensures
        i < context.len() && context[i].0 == "zpm_step"@ ==> step_of(context) == context[i].1,
        i == context.len() ==> step_of(context) == Seq::<char>::empty(),
{
    lemma_context_value(context, "zpm_step"@, 0, i);
}

/// What a step has printed is taken in by that step; what the report's step has printed, and what
/// is not ours, changes nothing.
pub proof fn law_every_step_takes_in_its_output(
    s: StateView,
    step: Seq<char>,
    out: Seq<char>,
    client_id: u16,
)
    ensures
        step == "manifest"@ ==> s.on_step(step, out, client_id) == s.on_manifest(out),
        step == "sync"@ ==> s.on_step(step, out, client_id) == s.on_sync(out, client_id),
        step == "grant"@ ==> s.on_step(step, out, client_id) == s.apply(client_id),
        step != "manifest"@ && step != "sync"@ && step != "grant"@ ==> s.on_step(
            step,
            out,
            client_id,
        ) == (Turn { state: s, effects: Seq::empty() }),
{
    reveal_strlit("manifest");
    reveal_strlit("sync");
    reveal_strlit("grant");
    assert("manifest"@[0] == 'm' && "sync"@[0] == 's' && "grant"@[0] == 'g');
}

/// A command's result goes to the step that its context names, with what the command has printed
/// to its standard output.
pub proof fn law_a_result_goes_to_its_step(
    s: StateView,
    exit: Option<i32>,
    stdout: Seq<u8>,
    stderr: Seq<u8>,
    context: Seq<(Seq<char>, Seq<char>)>,
    client_id: u16,
)
    ensures
        ({
            let turn = s.update(
                EventView::RunCommandResult(exit, stdout, stderr, context),
                client_id,
            );
            turn == s.on_step(step_of(context), lossy(stdout), client_id)
        }),
{
}

/// A handler adds the effects of its turn behind those that wait, and does nothing to them.
pub proof fn law_effects_are_added_behind(before: Seq<Effect>, turn: Turn, now: Seq<Effect>)
    requires
        followed(before, turn, now),
    ensures
        now.len() == before.len() + turn.effects.len(),
        forall|i: int| 0 <= i < before.len() ==> (#[trigger] now[i])@ == before[i]@,
        forall|i: int|
            0 <= i < turn.effects.len() ==> now[before.len() + i]@ == #[trigger] turn.effects[i],
{
    let a = effect_views(now);
    let b = effect_views(before) + turn.effects;
    assert(a.len() == now.len());
    assert forall|i: int| 0 <= i < before.len() implies (#[trigger] now[i])@ == before[i]@ by {
        assert(a[i] == b[i]);
    }
    assert forall|i: int| 0 <= i < turn.effects.len() implies now[before.len() + i]@
        == #[trigger] turn.effects[i] by {
        assert(a[before.len() + i] == b[before.len() + i]);
    }
}

// ── the start ───────────────────────────────────────────────────────────────────────────────────

/// A manager starts with nothing: no permissions, no run, nothing applied, nobody counted.
pub proof fn law_a_manager_starts_with_nothing()
    ensures
        ({
            let s = StateView::initial();
            &&& s.home.len() == 0
            &&& !s.permitted
            &&& !s.busy
            &&& s.verb is None
            &&& s.queued is None
            &&& s.plugins.len() == 0
            &&& s.report.len() == 0
            &&& s.applied.len() == 0
            &&& s.clients is None
        }),
{
}

/// Loading asks for the permissions to run commands, to reconfigure, to answer pipes and to see
/// session updates, subscribes to the events that the manager acts on, and changes nothing.
pub proof fn law_loading(s: StateView)
    ensures
        s.load().state == s,
        s.load().effects.len() == 2,
        s.load().effects[0] matches EffectView::RequestPermission(asked) && asked.len() == 4
            && asked.contains(PermissionType::RunCommands) && asked.contains(
            PermissionType::Reconfigure,
        ) && asked.contains(PermissionType::ReadCliPipes) && asked.contains(
            PermissionType::ReadApplicationState,
        ),
        s.load().effects[1] matches EffectView::Subscribe(events) && events.len() == 3
            && events.contains(EventType::RunCommandResult) && events.contains(
            EventType::PermissionRequestResult,
        ) && events.contains(EventType::SessionUpdate),
{
    let asked = s.load().effects[0]->RequestPermission_0;
    assert(asked[0] == PermissionType::RunCommands);
    assert(asked[1] == PermissionType::Reconfigure);
    assert(asked[2] == PermissionType::ReadCliPipes);
    assert(asked[3] == PermissionType::ReadApplicationState);
    let events = s.load().effects[1]->Subscribe_0;
    assert(events[0] == EventType::RunCommandResult);
    assert(events[1] == EventType::PermissionRequestResult);
    assert(events[2] == EventType::SessionUpdate);
}

/// The first grant begins an install, and a later one changes nothing; a denial is logged; an event
/// that the manager does not know changes nothing.
pub proof fn law_the_answer_to_the_request(s: StateView, client_id: u16)
    ensures
        s.update(EventView::PermissionRequestResult(PermissionStatus::Granted), client_id) == (
        if s.permitted {
            Turn { state: s, effects: Seq::empty() }
        } else {
            StateView { permitted: true, ..s }.begin(Verb::Install)
        }),
        s.update(EventView::PermissionRequestResult(PermissionStatus::Denied), client_id) == (
        Turn {
            state: s,
            effects: seq![
                EffectView::Log("lvim-zpm: permissions denied — the manager can do nothing"@),
            ],
        }),
        s.update(EventView::Other, client_id) == (Turn { state: s, effects: Seq::empty() }),
{
}

// ── a run begins and ends ───────────────────────────────────────────────────────────────────────

/// A run begins by reading the user's manifest. It is busy with its verb, and has forgotten what an
/// earlier run knew and reported; all else stays.
pub proof fn law_a_run_begins(s: StateView, verb: Verb)
    ensures
        s.begin(verb).effects == seq![step_command("manifest"@, manifest_script_of())],
        ({
            let t = s.begin(verb).state;
            &&& t.busy
            &&& t.verb == Some(verb)
            &&& t.plugins.len() == 0
            &&& t.report.len() == 0
            &&& t.home == s.home
            &&& t.permitted == s.permitted
            &&& t.queued == s.queued
            &&& t.applied == s.applied
            &&& t.clients == s.clients
        }),
{
}

/// A run ends by logging its report and writing the same report down, in this order. If a verb is
/// queued it is begun next, and is queued no longer; else the manager is idle. What was applied,
/// and who is there, stays.
pub proof fn law_a_run_ends(s: StateView, report: Seq<char>)
    ensures
        ({
            let turn = s.done(report);
            let t = turn.state;
            &&& turn.effects[0] == EffectView::Log(report)
            &&& turn.effects[1] == step_command("report"@, report_script_of(report))
            &&& t.queued is None
            &&& t.verb == s.queued
            &&& t.busy == s.queued is Some
            &&& t.home == s.home
            &&& t.permitted == s.permitted
            &&& t.applied == s.applied
            &&& t.clients == s.clients
            &&& match s.queued {
                Some(verb) => {
                    &&& turn.effects.len() == 3
                    &&& turn.effects[2] == step_command("manifest"@, manifest_script_of())
                    &&& t.plugins.len() == 0
                    &&& t.report.len() == 0
                },
                None => {
                    &&& turn.effects.len() == 2
                    &&& t.plugins == s.plugins
                    &&& t.report == s.report
                },
            }
        }),
{
}

// ── the manifest's result ───────────────────────────────────────────────────────────────────────

proof fn lemma_nothing_to_manage()
    ensures
        nothing_to_manage()
            == "lvim-zpm: nothing to manage — list plugins in ~/.config/zellij/zpm.kdl (\"owner/repo\" or \"file:/abs/dir\")"@,
{
    reveal_strlit("$HOME");
    reveal_strlit("~");
    reveal_strlit("$HOME/.config/zellij/zpm.kdl");
    reveal_strlit("lvim-zpm: nothing to manage — list plugins in ");
    reveal_strlit(" (\"owner/repo\" or \"file:/abs/dir\")");
    reveal_strlit(
        "lvim-zpm: nothing to manage — list plugins in ~/.config/zellij/zpm.kdl (\"owner/repo\" or \"file:/abs/dir\")",
    );
    let s = MANIFEST@;
    let p = "$HOME"@;
    let rest = s.skip(5);
    assert(s.subrange(0, 5) =~= p);
    assert(occurs_at(s, p, 0));
    law_replacing_goes_from_left_to_right(s, p, "~"@, 0);
    assert(!contains(rest, p)) by {
        if contains(rest, p) {
            let i = choose|i: int| occurs_at(rest, p, i);
            assert(rest.subrange(i, i + 5)[0] == '$');
            assert(s[i + 5] == '$');
        }
    }
    law_without_a_separator_nothing_is_parted(rest, p, "~"@);
    assert(s.take(0) =~= Seq::<char>::empty());
    assert(replaced(s, p, "~"@) =~= "~"@ + rest);
    assert(nothing_to_manage()
        =~= "lvim-zpm: nothing to manage — list plugins in ~/.config/zellij/zpm.kdl (\"owner/repo\" or \"file:/abs/dir\")"@);
}

/// The state of a run that knows its home directory and the plugins that the manifest lists.
pub open spec fn listed(s: StateView, home: Seq<char>, entries: Seq<Seq<char>>) -> StateView {
    StateView {
        home,
        plugins: s.plugins + Seq::new(entries.len(), |i: int| plugin_of(entries[i], home)),
        ..s
    }
}

/// The manifest step's first line is the home directory, and the rest is the manifest; output of
/// one line is all manifest. Every entry of the manifest becomes a plugin of the run, in order, and
/// the sync step is started for all of them; a manifest without entries ends the run.
pub proof fn law_the_manifest_is_taken_in(s: StateView, first: Seq<char>, rest: Seq<char>)
    requires
        !first.contains('\n'),
    ensures
        ({
            let verb = match s.verb {
                Some(verb) => verb,
                None => Verb::Status,
            };
            let nothing =
                "lvim-zpm: nothing to manage — list plugins in ~/.config/zellij/zpm.kdl (\"owner/repo\" or \"file:/abs/dir\")"@;
            let none = Seq::<char>::empty();
            let entries = entries_of(lines_of(rest));
            let home = trimmed(first);
            let turn = s.on_manifest(first + seq!['\n'] + rest);
            let only = entries_of(lines_of(first));
            let short = s.on_manifest(first);
            &&& entries.len() == 0 ==> turn == (StateView { home, ..s }).done(nothing)
            &&& entries.len() > 0 ==> turn.state == listed(s, home, entries) && turn.effects
                == seq![
                step_command(
                    "sync"@,
                    sync_script_of(
                        verb,
                        Seq::new(entries.len(), |i: int| plugin_of(entries[i], home)),
                    ),
                ),
            ]
            &&& only.len() == 0 ==> short == (StateView { home: none, ..s }).done(nothing)
            &&& only.len() > 0 ==> short.state == listed(s, none, only) && short.effects == seq![
                step_command(
                    "sync"@,
                    sync_script_of(
                        verb,
                        Seq::new(only.len(), |i: int| plugin_of(only[i], none)),
                    ),
                ),
            ]
        }),
{
    let none = Seq::<char>::empty();
    let entries = entries_of(lines_of(rest));
    let only = entries_of(lines_of(first));
    let home = trimmed(first);
    law_a_text_is_split_at_the_first_separator(first, '\n', rest);
    lemma_nothing_to_manage();
    assert(trimmed(none) =~= none);
    assert(plugins_of(entries, home) =~= Seq::new(
        entries.len(),
        |i: int| plugin_of(entries[i], home),
    ));
    assert(plugins_of(only, none) =~= Seq::new(only.len(), |i: int| plugin_of(only[i], none)));
}

// ── the sync's result ───────────────────────────────────────────────────────────────────────────

/// Status and check end with the sync step, and only they do. A run that installs or updates goes
/// on: its only effect is to start the grant step for the plugins as the sync has left them, and it
/// stays as busy as it was, with the same verb.
pub proof fn law_install_and_update_go_on_to_the_grant(
    s: StateView,
    out: Seq<char>,
    client_id: u16,
)
    ensures
        ({
            let turn = s.on_sync(out, client_id);
            &&& s.verb == Some(Verb::Install) || s.verb == Some(Verb::Update) || s.verb is None ==> {
                &&& turn.effects == seq![
                    step_command("grant"@, grant_script_of(s.synced(out).plugins)),
                ]
                &&& turn.state == s.synced(out)
                &&& turn.state.busy == s.busy
                &&& turn.state.verb == s.verb
                &&& turn.state.queued == s.queued
                &&& !ends_run(turn)
            }
            &&& s.verb == Some(Verb::Status) || s.verb == Some(Verb::Check) ==> {
                &&& turn == s.synced(out).finish(client_id)
                &&& turn.state.busy == s.queued is Some
                &&& turn.state.verb == s.queued
                &&& ends_run(turn)
            }
        }),
{
    let synced = s.synced(out);
    law_sync_changes_plugins_and_failures_only(s, out);
    lemma_done_ends(synced, synced.report_text(client_id), Seq::empty());
    assert(synced.finish(client_id).after(Seq::empty()) =~= synced.finish(client_id));
}

/// Whether a line of the sync step's output says what a check has found of a clone.
pub open spec fn checks(line: Seq<char>, name: Seq<char>) -> bool {
    occurs_at(line, "@@CHECK "@ + name + seq![' '], 0)
}

proof fn lemma_split_parts(s: Seq<char>, c: char)
    ensures
        split_pair(s, c) matches Some((a, b)) ==> s == a + seq![c] + b && !a.contains(c),
{
    lemma_find(s, c, 0);
    let i = find(s, c, 0);
    if i < s.len() {
        assert(s =~= s.take(i) + seq![c] + s.skip(i + 1));
    }
}

/// What a line does to the check of a plugin.
proof fn lemma_check_line(s: StateView, line: Seq<char>, i: int)
    requires
        0 <= i < s.plugins.len(),
    ensures
        ({
            let m = s.plugins[i];
            let after = s.sync_line(line).plugins[i].check;
            &&& s.sync_line(line).plugins.len() == s.plugins.len()
            &&& after == m.check || (m.github is Some && !m.name.contains(' ') && checks(
                line,
                m.name,
            ))
            &&& m.github is Some && !m.name.contains(' ') && checks(line, m.name) ==> after == Some(
                trimmed(line.skip(("@@CHECK "@ + m.name + seq![' ']).len() as int)),
            )
            &&& s.sync_line(line).plugins[i].name == m.name
            &&& s.sync_line(line).plugins[i].github == m.github
        }),
{
    let m = s.plugins[i];
    let head = "@@CHECK "@;
    let full = head + m.name + seq![' '];
    if !m.name.contains(' ') && checks(line, m.name) {
        let found = line.skip(full.len() as int);
        law_taking_off_a_prefix(line, full, found);
        assert(line =~= full + found);
        assert(line =~= head + (m.name + seq![' '] + found));
        law_taking_off_a_prefix(line, head, m.name + seq![' '] + found);
        lemma_split_pair(m.name, ' ', found);
    }
    match without_prefix(line, head) {
        Some(check) => {
            law_taking_off_a_prefix(line, head, check);
            lemma_split_parts(check, ' ');
            match split_pair(check, ' ') {
                Some((name, found)) => {
                    if name == m.name {
                        assert(line =~= full + found);
                        assert(line.subrange(0, full.len() as int) =~= full);
                    }
                },
                None => {},
            }
        },
        None => {},
    }
}

proof fn lemma_check_stays(s: StateView, before: Seq<Seq<char>>, after: Seq<Seq<char>>, i: int)
    requires
        0 <= i < s.plugins.len(),
        s.plugins[i].github is None || s.plugins[i].name.contains(' ') || forall|j: int|
            0 <= j < after.len() ==> !checks(#[trigger] after[j], s.plugins[i].name),
    ensures
        s.sync_lines(before + after).plugins.len() == s.plugins.len(),
        s.sync_lines(before + after).plugins[i].check == s.sync_lines(before).plugins[i].check,
        s.sync_lines(before + after).plugins[i].name == s.plugins[i].name,
        s.sync_lines(before + after).plugins[i].github == s.plugins[i].github,
    decreases before.len() + after.len(),
{
    let all = before + after;
    if after.len() > 0 {
        let fewer = after.drop_last();
        if !(s.plugins[i].github is None || s.plugins[i].name.contains(' ')) {
            assert forall|j: int| 0 <= j < fewer.len() implies !checks(
                #[trigger] fewer[j],
                s.plugins[i].name,
            ) by {
                assert(fewer[j] == after[j]);
            }
            assert(!checks(after[after.len() - 1], s.plugins[i].name));
        }
        lemma_check_stays(s, before, fewer, i);
        assert(all.drop_last() =~= before + fewer);
        assert(all.last() == after[after.len() - 1]);
        lemma_check_line(s.sync_lines(before + fewer), all.last(), i);
    } else {
        assert(all =~= before);
        lemma_lines_keep_source(s, before, i);
    }
}

proof fn lemma_lines_keep_source(s: StateView, lines: Seq<Seq<char>>, i: int)
    requires
        0 <= i < s.plugins.len(),
    ensures
        s.sync_lines(lines).plugins.len() == s.plugins.len(),
        s.sync_lines(lines).plugins[i].name == s.plugins[i].name,
        s.sync_lines(lines).plugins[i].github == s.plugins[i].github,
    decreases lines.len(),
{
    if lines.len() > 0 {
        lemma_lines_keep_source(s, lines.drop_last(), i);
        lemma_check_line(s.sync_lines(lines.drop_last()), lines.last(), i);
    }
}

proof fn lemma_sections_keep_check(s: StateView, sections: Seq<Seq<char>>, i: int)
    requires
        0 <= i < s.plugins.len(),
    ensures
        s.sync_sections(sections).plugins.len() == s.plugins.len(),
        s.sync_sections(sections).plugins[i].check == s.plugins[i].check,
    decreases sections.len(),
{
    if sections.len() > 0 {
        let before = s.sync_sections(sections.drop_last());
        lemma_sections_keep_check(s, sections.drop_last(), i);
        let (name, body) = section_parts(sections.last());
        lemma_plugin_index(before.plugins, name, 0);
        lemma_read_lines_keep_rest(before.plugins[i], lines_of(body));
    }
}

/// Every line of the sync step's output counts, wherever it stands: what the last check of a name
/// has found, on whatever line, is what the plugins of this name that come from git have found.
pub proof fn law_every_check_counts(
    s: StateView,
    out: Seq<char>,
    before: Seq<Seq<char>>,
    found: Seq<char>,
    after: Seq<Seq<char>>,
    i: int,
)
    requires
        0 <= i < s.plugins.len(),
        s.plugins[i].github is Some,
        !s.plugins[i].name.contains(' '),
        lines_of(out) == before + seq!["@@CHECK "@ + s.plugins[i].name + seq![' '] + found] + after,
        forall|j: int|
            0 <= j < after.len() ==> !checks(#[trigger] after[j], s.plugins[i].name),
    ensures
        s.synced(out).plugins[i].check == Some(trimmed(found)),
{
    let m = s.plugins[i];
    let full = "@@CHECK "@ + m.name + seq![' '];
    let line = full + found;
    let upto = before + seq![line];
    lemma_check_stays(s, upto, after, i);
    lemma_lines_keep_source(s, before, i);
    assert(upto.drop_last() =~= before);
    lemma_check_line(s.sync_lines(before), line, i);
    assert(line.subrange(0, full.len() as int) =~= full);
    assert(line.skip(full.len() as int) =~= found);
    lemma_sections_keep_check(s.sync_lines(lines_of(out)), sections_of(out), i);
}

/// What is not checked stays as it was: a plugin of which no line says anything, and any local one.
pub proof fn law_without_a_check_nothing_is_found(s: StateView, out: Seq<char>, i: int)
    requires
        0 <= i < s.plugins.len(),
        s.plugins[i].github is None || s.plugins[i].name.contains(' ') || forall|j: int|
            0 <= j < lines_of(out).len() ==> !checks(
                #[trigger] lines_of(out)[j],
                s.plugins[i].name,
            ),
    ensures
        s.synced(out).plugins[i].check == s.plugins[i].check,
{
    let none = Seq::<Seq<char>>::empty();
    lemma_check_stays(s, none, lines_of(out), i);
    assert(none + lines_of(out) =~= lines_of(out));
    lemma_sections_keep_check(s.sync_lines(lines_of(out)), sections_of(out), i);
}

/// Whether a line of the sync step's output tells of a failure.
pub open spec fn is_failure() -> spec_fn(Seq<char>) -> bool {
    |line: Seq<char>| occurs_at(line, "@@FAIL "@, 0)
}

/// What the report says of a failure.
pub open spec fn failure_told() -> spec_fn(Seq<char>) -> Seq<char> {
    |line: Seq<char>| "  ✗ "@ + line.skip("@@FAIL "@.len() as int)
}

proof fn lemma_failures(s: StateView, lines: Seq<Seq<char>>)
    ensures
        s.sync_lines(lines).report == s.report + lines.filter(is_failure()).map_values(
            failure_told(),
        ),
    decreases lines.len(),
{
    reveal(Seq::filter);
    if lines.len() == 0 {
        assert(s.report + lines.filter(is_failure()).map_values(failure_told()) =~= s.report);
    } else {
        lemma_failures(s, lines.drop_last());
        let line = lines.last();
        let fewer = lines.drop_last().filter(is_failure());
        assert(fewer.push(line).map_values(failure_told()) =~= fewer.map_values(
            failure_told(),
        ).push("  ✗ "@ + line.skip("@@FAIL "@.len() as int)));
        assert(s.sync_lines(lines).report =~= s.report + lines.filter(is_failure()).map_values(
            failure_told(),
        ));
    }
}

proof fn lemma_sections_keep_report(s: StateView, sections: Seq<Seq<char>>)
    ensures
        s.sync_sections(sections).report == s.report,
    decreases sections.len(),
{
    if sections.len() > 0 {
        lemma_sections_keep_report(s, sections.drop_last());
    }
}

/// Every failure that the sync step prints gets into the report, wherever it stands in the output:
/// the failures are added behind what is there, in order, and nothing else is.
pub proof fn law_every_failure_is_reported(s: StateView, out: Seq<char>)
    ensures
        s.synced(out).report == s.report + lines_of(out).filter(is_failure()).map_values(
            failure_told(),
        ),
{
    lemma_failures(s, lines_of(out));
    lemma_sections_keep_report(s.sync_lines(lines_of(out)), sections_of(out));
}

/// The sections of the sync step's output are what stands behind its markers, one for each; what
/// stands before the first marker is none.
pub proof fn law_a_section_stands_behind_each_marker(before: Seq<char>, sections: Seq<Seq<char>>)
    requires
        !contains(before, "===PLUGIN "@),
        forall|i: int|
            0 <= i < sections.len() ==> !contains(#[trigger] sections[i], "===PLUGIN "@),
    ensures
        sections_of(joined(seq![before] + sections, "===PLUGIN "@)) == sections,
{
    let pieces = seq![before] + sections;
    lemma_marker();
    assert forall|i: int| 0 <= i < pieces.len() implies !contains(
        #[trigger] pieces[i],
        "===PLUGIN "@,
    ) by {
        if i > 0 {
            assert(pieces[i] == sections[i - 1]);
        }
    }
    law_splitting_undoes_joining(pieces, "===PLUGIN "@);
    assert(pieces.drop_first() =~= sections);
}

/// The sections are read one after the other, behind all of the output's lines.
pub proof fn law_sections_are_read_in_order(
    s: StateView,
    out: Seq<char>,
    sections: Seq<Seq<char>>,
    section: Seq<char>,
)
    ensures
        s.sync_sections(Seq::empty()) == s,
        s.sync_sections(sections.push(section)) == s.sync_sections(sections).sync_section(
            section,
            sections.len() as int,
        ),
        s.synced(out) == s.sync_lines(lines_of(out)).sync_sections(sections_of(out)),
{
    assert(sections.push(section).drop_last() =~= sections);
}

proof fn lemma_first_of_name(plugins: Seq<ManagedView>, name: Seq<char>, from: int, i: int)
    requires
        0 <= from <= i <= plugins.len(),
        forall|j: int| from <= j < i ==> (#[trigger] plugins[j]).name != name,
        i < plugins.len() ==> plugins[i].name == name,
    ensures
        plugin_index(plugins, name, from) == i,
    decreases i - from,
{
    if from < i {
        assert(plugins[from].name != name);
        lemma_first_of_name(plugins, name, from + 1, i);
    }
}

/// A section is read by one plugin, and nothing else changes. It is the plugin of the section's
/// own place if the section bears its name, and else the first that has the name; a section of an
/// unknown name is read by none.
pub proof fn law_a_section_is_read_by_its_plugin(
    s: StateView,
    name: Seq<char>,
    body: Seq<char>,
    k: int,
    i: int,
)
    requires
        !name.contains('\n'),
        0 <= i <= s.plugins.len(),
        if 0 <= k < s.plugins.len() && trimmed(s.plugins[k].name) == trimmed(name) {
            i == k
        } else {
            &&& forall|j: int| 0 <= j < i ==> (#[trigger] s.plugins[j]).name != trimmed(name)
            &&& i < s.plugins.len() ==> s.plugins[i].name == trimmed(name)
        },
    ensures
        s.sync_section(name + seq!['\n'] + body, k) == (if i < s.plugins.len() {
            StateView {
                plugins: s.plugins.update(i, s.plugins[i].read_section(body, s.home)),
                ..s
            }
        } else {
            s
        }),
        s.sync_section(name, k) == (if i < s.plugins.len() {
            StateView {
                plugins: s.plugins.update(i, s.plugins[i].read_section(Seq::empty(), s.home)),
                ..s
            }
        } else {
            s
        }),
{
    law_a_text_is_split_at_the_first_separator(name, '\n', body);
    if !(0 <= k < s.plugins.len() && trimmed(s.plugins[k].name) == trimmed(name)) {
        lemma_first_of_name(s.plugins, trimmed(name), 0, i);
    }
    assert(section_owner(s.plugins, trimmed(name), k) == i);
}

// ── the grant's result ──────────────────────────────────────────────────────────────────────────

/// Whether a plugin has a keybinds block to apply.
pub open spec fn has_keybinds() -> spec_fn(ManagedView) -> bool {
    |m: ManagedView| m.keybinds is Some
}

proof fn lemma_blocks(plugins: Seq<ManagedView>)
    ensures
        blocks_of(plugins) == plugins.filter(has_keybinds()).map_values(
            |m: ManagedView| m.keybinds->0,
        ),
    decreases plugins.len(),
{
    reveal(Seq::filter);
    let f = |m: ManagedView| m.keybinds->0;
    if plugins.len() == 0 {
        assert(blocks_of(plugins) =~= plugins.filter(has_keybinds()).map_values(f));
    } else {
        let fewer = plugins.drop_last().filter(has_keybinds());
        lemma_blocks(plugins.drop_last());
        assert(fewer.push(plugins.last()).map_values(f) =~= fewer.map_values(f).push(
            plugins.last().keybinds->0,
        ));
        assert(blocks_of(plugins) =~= plugins.filter(has_keybinds()).map_values(f));
    }
}

/// When the permissions are granted, a run applies what it has, remembers it, and ends: the first
/// effects apply the blocks of exactly those plugins that have one, in order and to the live
/// session only; the same blocks count as applied from then on; and the rest is the report.
pub proof fn law_a_run_applies_what_it_has(s: StateView, client_id: u16)
    ensures
        ({
            let turn = s.apply(client_id);
            let having = s.plugins.filter(has_keybinds());
            let n = having.len() as int;
            let end = (StateView { applied: turn.state.applied, ..s }).finish(client_id);
            &&& turn.state.applied.len() == n
            &&& forall|k: int|
                0 <= k < n ==> #[trigger] turn.state.applied[k] == having[k].keybinds->0
            &&& turn.effects.len() == n + end.effects.len()
            &&& forall|k: int|
                0 <= k < n ==> #[trigger] turn.effects[k] == (EffectView::Reconfigure {
                    config: having[k].keybinds->0,
                    save: false,
                })
            &&& turn.effects.skip(n) == end.effects
            &&& turn.state == end.state
        }),
{
    let turn = s.apply(client_id);
    let blocks = blocks_of(s.plugins);
    let having = s.plugins.filter(has_keybinds());
    let n = having.len() as int;
    lemma_blocks(s.plugins);
    let end = (StateView { applied: blocks, ..s }).finish(client_id);
    assert(turn.effects.skip(n) =~= end.effects);
    assert forall|k: int| 0 <= k < n implies #[trigger] turn.effects[k] == (
    EffectView::Reconfigure { config: having[k].keybinds->0, save: false }) by {
        assert(apply_all(blocks)[k] == turn.effects[k]);
    }
}

/// Every plugin's block is applied, whatever its place in the list: it comes behind the blocks of
/// the plugins before it, and before those of the others.
pub proof fn law_every_block_is_applied(s: StateView, client_id: u16, i: int, block: Seq<char>)
    requires
        0 <= i < s.plugins.len(),
        s.plugins[i].keybinds == Some(block),
    ensures
        ({
            let turn = s.apply(client_id);
            let k = s.plugins.take(i).filter(has_keybinds()).len() as int;
            let later = s.plugins.skip(i + 1).filter(has_keybinds()).len();
            &&& turn.state.applied.len() == k + 1 + later
            &&& turn.state.applied[k] == block
            &&& turn.effects[k] == (EffectView::Reconfigure { config: block, save: false })
        }),
{
    let p = has_keybinds();
    let a = s.plugins.take(i);
    let m = seq![s.plugins[i]];
    let b = s.plugins.skip(i + 1);
    assert(a + m + b =~= s.plugins);
    Seq::filter_distributes_over_add(a, m, p);
    Seq::filter_distributes_over_add(a + m, b, p);
    assert(m.filter(p) =~= m) by {
        reveal(Seq::filter);
        assert(m.drop_last() =~= Seq::empty());
        assert(Seq::<ManagedView>::empty().filter(p) =~= Seq::empty());
    }
    law_a_run_applies_what_it_has(s, client_id);
    let k = a.filter(p).len() as int;
    assert(s.plugins.filter(p)[k] == s.plugins[i]);
}

/// What a check has found does not matter to the reading of a manifest.
proof fn lemma_check_does_not_matter(
    m: ManagedView,
    check: Option<Seq<char>>,
    body: Seq<char>,
    home: Seq<char>,
)
    ensures
        (ManagedView { check, ..m }).read_section(body, home) == (ManagedView {
            check,
            ..m.read_section(body, home)
        }),
{
    let checked = ManagedView { check, ..m };
    lemma_read_lines_keep_rest(m, lines_of(body));
    lemma_read_lines_keep_rest(checked, lines_of(body));
    lemma_lines_set_or_leave(m, checked, lines_of(body));
}

proof fn lemma_block_is_among_the_effects(
    s: StateView,
    client_id: u16,
    i: int,
    block: Seq<char>,
)
    requires
        0 <= i < s.plugins.len(),
        s.plugins[i].keybinds == Some(block),
    ensures
        s.apply(client_id).state.applied.contains(block),
        s.apply(client_id).effects.contains(
            EffectView::Reconfigure { config: block, save: false },
        ),
{
    law_every_block_is_applied(s, client_id, i, block);
    law_a_run_applies_what_it_has(s, client_id);
    let k = s.plugins.take(i).filter(has_keybinds()).len() as int;
    let turn = s.apply(client_id);
    assert(turn.state.applied[k] == block);
    assert(turn.effects[k] == EffectView::Reconfigure { config: block, save: false });
}

/// Realizing the manifest, from start to end: let an install or an update begin, let the host print
/// its home directory and a manifest with entries, and then a section for each of the plugins that
/// the manifest lists. The grant step is then started for all of them, and when it has ended, the
/// keybinds of every plugin whose own manifest has some are applied to the live session, with the
/// plugin's target put in, and count as applied.
pub proof fn law_a_run_realizes_the_manifest(
    s: StateView,
    verb: Verb,
    home: Seq<char>,
    text: Seq<char>,
    before: Seq<char>,
    bodies: Seq<Seq<char>>,
    client_id: u16,
    i: int,
)
    requires
        verb == Verb::Install || verb == Verb::Update,
        !home.contains('\n'),
        bodies.len() == entries_of(lines_of(text)).len(),
        !contains(before, "===PLUGIN "@),
        forall|j: int|
            0 <= j < bodies.len() ==> !contains(
                section_text(
                    plugin_of(entries_of(lines_of(text))[j], trimmed(home)).name,
                    #[trigger] bodies[j],
                ),
                "===PLUGIN "@,
            ),
        0 <= i < bodies.len(),
    ensures
        ({
            let entry = entries_of(lines_of(text))[i];
            let known = s.begin(verb).state.on_manifest(home + seq!['\n'] + text).state;
            let synced = known.on_sync(sync_output(before, known.plugins, bodies), client_id);
            let ran = synced.state.apply(client_id);
            let m = plugin_of(entry, trimmed(home)).read_section(bodies[i], trimmed(home));
            &&& known.plugins.len() == bodies.len()
            &&& synced.effects == seq![
                step_command("grant"@, grant_script_of(synced.state.plugins)),
            ]
            &&& synced.state.plugins[i] == (ManagedView {
                check: synced.state.plugins[i].check,
                ..m
            })
            &&& m.keybinds matches Some(block) ==> ran.state.applied.contains(block)
                && ran.effects.contains(EffectView::Reconfigure { config: block, save: false })
        }),
{
    let entries = entries_of(lines_of(text));
    let h = trimmed(home);
    let begun = s.begin(verb).state;
    let known = begun.on_manifest(home + seq!['\n'] + text).state;
    law_the_manifest_is_taken_in(begun, home, text);
    assert(known.plugins =~= plugins_of(entries, h));
    law_names_of_a_run_fit_a_line(text, h);
    assert forall|j: int| 0 <= j < bodies.len() implies !contains(
        section_text(known.plugins[j].name, #[trigger] bodies[j]),
        "===PLUGIN "@,
    ) by {
        assert(known.plugins[j] == plugin_of(entries[j], h));
    }
    law_every_manifest_reaches_its_plugin(known, before, bodies, i);
    let out = sync_output(before, known.plugins, bodies);
    law_install_and_update_go_on_to_the_grant(known, out, client_id);
    let synced = known.on_sync(out, client_id);
    let lined = known.sync_lines(lines_of(out)).plugins[i];
    let m = plugin_of(entries[i], h).read_section(bodies[i], h);
    assert(known.plugins[i] == plugin_of(entries[i], h));
    lemma_check_does_not_matter(known.plugins[i], lined.check, bodies[i], h);
    assert(synced.state.plugins[i] == ManagedView { check: lined.check, ..m });
    if m.keybinds is Some {
        law_sync_changes_plugins_and_failures_only(known, out);
        law_sync_keeps_the_list(known, out);
        lemma_block_is_among_the_effects(synced.state, client_id, i, m.keybinds->0);
    }
}

// ── sessions ────────────────────────────────────────────────────────────────────────────────────

proof fn lemma_current_session(sessions: Seq<SessionInfo>, from: int, i: int)
    requires
        0 <= from <= i <= sessions.len(),
        forall|j: int| from <= j < i ==> !(#[trigger] sessions[j]).is_current_session,
    ensures
        current_session(sessions, from) == current_session(sessions, i),
    decreases i - from,
{
    if from < i {
        assert(!sessions[from].is_current_session);
        lemma_current_session(sessions, from + 1, i);
    }
}

/// The current session is the first that is marked so.
pub proof fn law_the_current_session(sessions: Seq<SessionInfo>, i: int)
    requires
        0 <= i <= sessions.len(),
        forall|j: int| 0 <= j < i ==> !(#[trigger] sessions[j]).is_current_session,
    ensures
        i < sessions.len() && sessions[i].is_current_session ==> current_session(sessions, 0)
            == Some(sessions[i]),
        i == sessions.len() ==> current_session(sessions, 0) is None,
{
    lemma_current_session(sessions, 0, i);
}

/// A client has come in if the count has risen, by however many, above one that is known.
pub proof fn law_a_rise_is_an_arrival(before: Option<usize>, now: usize)
    ensures
        arrived(before, now) <==> before is Some && now > before->0,
{
}

/// What comes of an update on the current session. The clients are counted, whatever else happens.
/// The first update of a manager without permissions is its grant, and begins an install. If the
/// count has risen, by however many, all that is applied is applied again, in order and to the live
/// session only, and that is logged; if nothing is applied and no run is going on, an install is
/// begun. Else nothing is done, and neither is it if no session is current.
pub proof fn law_a_session_update(s: StateView, sessions: Seq<SessionInfo>, client_id: u16)
    ensures
        ({
            let turn = s.update(EventView::SessionUpdate(sessions), client_id);
            match current_session(sessions, 0) {
                None => turn == (Turn { state: s, effects: Seq::empty() }),
                Some(here) => {
                    let now = here.connected_clients;
                    let counted = StateView { clients: Some(now), ..s };
                    let risen = s.clients is Some && now > s.clients->0;
                    let n = s.applied.len() as int;
                    if !s.permitted {
                        turn == (StateView { permitted: true, ..counted }).begin(Verb::Install)
                    } else if risen && n > 0 {
                        &&& turn.state == counted
                        &&& turn.effects.len() == n + 1
                        &&& forall|k: int|
                            0 <= k < n ==> #[trigger] turn.effects[k] == (
                            EffectView::Reconfigure { config: s.applied[k], save: false })
                        &&& turn.effects[n] == EffectView::Log(
                            "lvim-zpm: client "@ + decimal(client_id as nat)
                                + " attached — keybinds re-applied"@,
                        )
                    } else if risen && !s.busy {
                        turn == counted.begin(Verb::Install)
                    } else {
                        turn == (Turn { state: counted, effects: Seq::empty() })
                    }
                },
            }
        }),
{
}

// ── pipes ───────────────────────────────────────────────────────────────────────────────────────

/// What comes of a piped verb. A command line is told at once what becomes of it, and where the
/// report will be, and is let go; nobody else is told anything. Then, with the permissions, the
/// verb is begun if the manager is idle, and queued behind the run if it is not.
pub proof fn law_a_piped_verb(s: StateView, message: PipeMessageView, verb: Verb)
    requires
        Verb::spec_from_name(message.name) == Some(verb),
    ensures
        ({
            let turn = s.pipe(message);
            let becomes = if !s.permitted {
                "waiting for permissions"@
            } else if s.busy {
                "queued behind the current run"@
            } else {
                "running"@
            };
            let told = match message.cli {
                Some(id) => seq![
                    EffectView::CliPipeOutput {
                        id,
                        output: "lvim-zpm: "@ + message.name + " "@ + becomes
                            + " — report: ~/.config/zellij/zpm/last-report (and the zellij log)\n"@,
                    },
                    EffectView::UnblockCliPipeInput { id },
                ],
                None => Seq::empty(),
            };
            if !s.permitted {
                turn.state == s && turn.effects == told
            } else if s.busy {
                turn.state == (StateView { queued: Some(verb), ..s }) && turn.effects == told
            } else {
                turn.state == s.begin(verb).state && turn.effects == told + s.begin(verb).effects
            }
        }),
{
    let told = s.pipe(message).effects;
    assert(forall|x: Seq<EffectView>| x + Seq::<EffectView>::empty() =~= x);
}

} // verus!
