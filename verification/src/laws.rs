//! What holds of the manager as a whole: over every event, and over any course of events.
use vstd::prelude::*;
use vstd::string::*;

use crate::host::{
    context_value, step_command, step_of, EffectView, EventView, PermissionStatus, PipeMessageView,
    SessionInfo,
};
use crate::manifest::entries_of;
use crate::manifest_laws::law_entries_can_be_listed;
use crate::plugin::ManagedView;
use crate::plugin_laws::{law_reports_are_written_down_apart, lemma_read_lines_keep_rest};
use crate::script::{grant_script_of, manifest_script_of, report_script_of, sync_script_of};
use crate::state::{
    acknowledgement_of, apply_all, apply_live, arrived, blocks_of, current_session, headline_of,
    nothing_to_manage, outcome_of, plugin_index, plugin_line_of, plugin_lines_of, plugins_of,
    section_owner, section_parts, sections_of, StateView, Turn,
};
use crate::text::{
    after_last, contains, decimal, joined, lemma_find_unique, lines_of, lossy, split_pair, trimmed,
    without_prefix,
};
use crate::text_laws::{
    law_numbers_can_be_told_apart, law_splitting_undoes_joining, lemma_joined_front,
    lemma_split_pair, unbordered,
};
use crate::verb::Verb;

pub mod reports;
pub mod runs;
pub mod scripts;
pub mod views;

verus! {

// ── courses of events ───────────────────────────────────────────────────────────────────────────

/// Something that the host hands to the manager: an event, for the client that the instance
/// answers for, or a piped message.
pub enum Input {
    Event(EventView, u16),
    Pipe(PipeMessageView),
}

impl StateView {
    /// What comes of one input.
    pub open spec fn take(self, input: Input) -> Turn {
        match input {
            Input::Event(event, client_id) => self.update(event, client_id),
            Input::Pipe(message) => self.pipe(message),
        }
    }

    /// The state after some inputs.
    pub open spec fn after(self, inputs: Seq<Input>) -> StateView
        decreases inputs.len(),
    {
        if inputs.len() == 0 {
            self
        } else {
            self.after(inputs.drop_last()).take(inputs.last()).state
        }
    }
}

/// The step whose result an input is; empty if it is not a step's result.
pub open spec fn result_step(input: Input) -> Seq<char> {
    match input {
        Input::Event(EventView::RunCommandResult(_, _, _, context), _) => step_of(context),
        _ => Seq::empty(),
    }
}

/// Whether a run waits for this step. What comes of writing the report is not waited for.
pub open spec fn is_awaited(step: Seq<char>) -> bool {
    step == "manifest"@ || step == "sync"@ || step == "grant"@
}

/// The step that an effect starts; empty if it starts none.
pub open spec fn started_step(effect: EffectView) -> Seq<char> {
    match effect {
        EffectView::RunCommand { command, context } => step_of(context),
        _ => Seq::empty(),
    }
}

/// How many of the effects start a step that a run waits for.
pub open spec fn awaited(effects: Seq<EffectView>) -> nat
    decreases effects.len(),
{
    if effects.len() == 0 {
        0
    } else {
        awaited(effects.drop_last()) + if is_awaited(started_step(effects.last())) {
            1nat
        } else {
            0nat
        }
    }
}

/// How many steps are in flight: one during a run, none otherwise.
pub open spec fn in_flight(s: StateView) -> nat {
    if s.busy {
        1
    } else {
        0
    }
}

// ── lemmas ──────────────────────────────────────────────────────────────────────────────────────

proof fn lemma_steps(script: Seq<char>)
    ensures
        started_step(step_command("manifest"@, script)) == "manifest"@,
        started_step(step_command("sync"@, script)) == "sync"@,
        started_step(step_command("grant"@, script)) == "grant"@,
        started_step(step_command("report"@, script)) == "report"@,
        !is_awaited("report"@),
        !is_awaited(Seq::empty()),
        "manifest"@ != "sync"@,
        "manifest"@ != "grant"@,
        "sync"@ != "grant"@,
{
    reveal_with_fuel(context_value, 2);
    reveal_strlit("manifest");
    reveal_strlit("sync");
    reveal_strlit("grant");
    reveal_strlit("report");
    assert("manifest"@[0] == 'm' && "sync"@[0] == 's');
    assert("grant"@[0] == 'g' && "report"@[0] == 'r');
    assert("manifest"@.len() > 0 && "sync"@.len() > 0 && "grant"@.len() > 0);
}

proof fn lemma_awaited_add(a: Seq<EffectView>, b: Seq<EffectView>)
    ensures
        awaited(a + b) == awaited(a) + awaited(b),
    decreases b.len(),
{
    if b.len() == 0 {
        assert(a + b =~= a);
    } else {
        assert((a + b).drop_last() =~= a + b.drop_last());
        lemma_awaited_add(a, b.drop_last());
    }
}

proof fn lemma_awaited_one(e: EffectView)
    ensures
        awaited(seq![e]) == if is_awaited(started_step(e)) {
            1nat
        } else {
            0nat
        },
{
    assert(seq![e].drop_last() =~= Seq::empty());
    assert(awaited(Seq::<EffectView>::empty()) == 0);
}

proof fn lemma_awaited_apply(blocks: Seq<Seq<char>>)
    ensures
        awaited(apply_all(blocks)) == 0,
    decreases blocks.len(),
{
    if blocks.len() > 0 {
        lemma_steps(Seq::empty());
        lemma_awaited_apply(blocks.drop_last());
        assert(apply_all(blocks).drop_last() =~= apply_all(blocks.drop_last()));
    }
}

proof fn lemma_awaited_begin(s: StateView, verb: Verb)
    ensures
        awaited(s.begin(verb).effects) == 1,
{
    lemma_steps(manifest_script_of());
    lemma_awaited_one(s.begin(verb).effects[0]);
    assert(s.begin(verb).effects =~= seq![s.begin(verb).effects[0]]);
}

proof fn lemma_awaited_done(s: StateView, report: Seq<char>)
    ensures
        awaited(s.done(report).effects) == in_flight(s.done(report).state),
{
    let script = report_script_of(report);
    let told = seq![EffectView::Log(report), step_command("report"@, script)];
    lemma_steps(script);
    lemma_awaited_one(EffectView::Log(report));
    lemma_awaited_one(step_command("report"@, script));
    lemma_awaited_add(seq![EffectView::Log(report)], seq![step_command("report"@, script)]);
    assert(told =~= seq![EffectView::Log(report)] + seq![step_command("report"@, script)]);
    match s.queued {
        Some(verb) => {
            let idle = StateView { busy: false, verb: None, queued: None, ..s };
            lemma_awaited_begin(idle, verb);
            lemma_awaited_add(told, idle.begin(verb).effects);
        },
        None => {},
    }
}

/// Reading the sync step's output changes the plugins and the failures, and nothing else.
proof fn lemma_sync_lines_keep(s: StateView, lines: Seq<Seq<char>>)
    ensures
        s.sync_lines(lines) == (StateView {
            plugins: s.sync_lines(lines).plugins,
            report: s.sync_lines(lines).report,
            ..s
        }),
    decreases lines.len(),
{
    if lines.len() > 0 {
        lemma_sync_lines_keep(s, lines.drop_last());
    }
}

proof fn lemma_sync_sections_keep(s: StateView, sections: Seq<Seq<char>>)
    ensures
        s.sync_sections(sections) == (StateView {
            plugins: s.sync_sections(sections).plugins,
            ..s
        }),
    decreases sections.len(),
{
    if sections.len() > 0 {
        lemma_sync_sections_keep(s, sections.drop_last());
    }
}

/// Whatever the host prints, reading the sync step's output changes the plugins and the failures,
/// and nothing else.
pub proof fn law_sync_changes_plugins_and_failures_only(s: StateView, out: Seq<char>)
    ensures
        s.synced(out) == (StateView {
            plugins: s.synced(out).plugins,
            report: s.synced(out).report,
            ..s
        }),
{
    let lines = lines_of(out);
    lemma_sync_lines_keep(s, lines);
    lemma_sync_sections_keep(s.sync_lines(lines), sections_of(out));
}

// ── the invariant ───────────────────────────────────────────────────────────────────────────────

/// Every input keeps the invariant.
pub proof fn law_every_input_keeps_the_invariant(s: StateView, input: Input)
    requires
        s.wf(),
    ensures
        s.take(input).state.wf(),
{
    match input {
        Input::Event(EventView::RunCommandResult(_, stdout, _, context), client_id) => {
            law_sync_changes_plugins_and_failures_only(s, lossy(stdout));
        },
        _ => {},
    }
}

/// The invariant holds of every state that the manager gets into.
pub proof fn law_every_state_is_well_formed(inputs: Seq<Input>)
    ensures
        StateView::initial().after(inputs).wf(),
        ({
            let s = StateView::initial().after(inputs);
            &&& s.busy <==> s.verb is Some
            &&& s.busy ==> s.permitted
            &&& s.queued is Some ==> s.busy
        }),
    decreases inputs.len(),
{
    if inputs.len() > 0 {
        law_every_state_is_well_formed(inputs.drop_last());
        law_every_input_keeps_the_invariant(
            StateView::initial().after(inputs.drop_last()),
            inputs.last(),
        );
    }
}

// ── one run at a time ───────────────────────────────────────────────────────────────────────────

/// Runs are serialized: exactly one step is in flight during a run, and none otherwise. What an
/// input takes out of flight, if it is the result of an awaited step, and what its effects put
/// there, keep it so; a host returns the result of a step only while the step is in flight.
pub proof fn law_one_step_in_flight(s: StateView, input: Input)
    requires
        s.wf(),
        is_awaited(result_step(input)) ==> s.busy,
    ensures
        in_flight(s) + awaited(s.take(input).effects) == in_flight(s.take(input).state)
            + if is_awaited(result_step(input)) {
            1nat
        } else {
            0nat
        },
{
    lemma_steps(Seq::empty());
    assert(awaited(Seq::<EffectView>::empty()) == 0);
    match input {
        Input::Event(EventView::RunCommandResult(_, stdout, _, context), client_id) => {
            let out = lossy(stdout);
            let step = step_of(context);
            if step == "manifest"@ {
                lemma_flight_manifest(s, out);
            } else if step == "sync"@ {
                lemma_flight_sync(s, out, client_id);
            } else if step == "grant"@ {
                lemma_flight_apply(s, client_id);
            }
        },
        Input::Event(EventView::SessionUpdate(sessions), client_id) => {
            match current_session(sessions, 0) {
                Some(here) => {
                    lemma_flight_clients(s, here.connected_clients, client_id);
                },
                None => {},
            }
        },
        Input::Event(EventView::PermissionRequestResult(status), client_id) => {
            let e = s.update(EventView::PermissionRequestResult(status), client_id).effects;
            if status == PermissionStatus::Granted {
                lemma_awaited_begin(StateView { permitted: true, ..s }, Verb::Install);
            } else {
                lemma_awaited_one(e[0]);
                assert(e =~= seq![e[0]]);
            }
        },
        Input::Event(EventView::Other, _) => {},
        Input::Pipe(message) => {
            lemma_flight_pipe(s, message);
        },
    }
}

/// How many awaited steps a course of inputs starts.
pub open spec fn steps_started(s: StateView, inputs: Seq<Input>) -> nat
    decreases inputs.len(),
{
    if inputs.len() == 0 {
        0
    } else {
        steps_started(s, inputs.drop_last()) + awaited(
            s.after(inputs.drop_last()).take(inputs.last()).effects,
        )
    }
}

/// How many results of awaited steps a course of inputs brings.
pub open spec fn steps_ended(inputs: Seq<Input>) -> nat
    decreases inputs.len(),
{
    if inputs.len() == 0 {
        0
    } else {
        steps_ended(inputs.drop_last()) + if is_awaited(result_step(inputs.last())) {
            1nat
        } else {
            0nat
        }
    }
}

/// Whether no step ever ends that has not been started.
pub open spec fn is_faithful(inputs: Seq<Input>) -> bool
    decreases inputs.len(),
{
    if inputs.len() == 0 {
        true
    } else {
        &&& is_faithful(inputs.drop_last())
        &&& is_awaited(result_step(inputs.last())) ==> steps_ended(inputs.drop_last())
            < steps_started(StateView::initial(), inputs.drop_last())
    }
}

/// From load on, whatever happens: exactly one step is in flight while the manager is busy, and
/// none while it is not. So there are never two runs at once.
pub proof fn law_runs_are_serialized(inputs: Seq<Input>)
    requires
        is_faithful(inputs),
    ensures
        steps_started(StateView::initial(), inputs) == steps_ended(inputs) + in_flight(
            StateView::initial().after(inputs),
        ),
    decreases inputs.len(),
{
    if inputs.len() > 0 {
        let before = StateView::initial().after(inputs.drop_last());
        law_runs_are_serialized(inputs.drop_last());
        law_every_state_is_well_formed(inputs.drop_last());
        law_one_step_in_flight(before, inputs.last());
    }
}

proof fn lemma_flight_manifest(s: StateView, out: Seq<char>)
    requires
        s.busy,
    ensures
        awaited(s.on_manifest(out).effects) == in_flight(s.on_manifest(out).state),
{
    let t = s.on_manifest(out);
    let parts = match split_pair(out, '\n') {
        Some(parts) => parts,
        None => (Seq::empty(), out),
    };
    let known = StateView { home: trimmed(parts.0), ..s };
    lemma_awaited_done(known, nothing_to_manage());
    if entries_of(lines_of(parts.1)).len() > 0 {
        let script = t.effects[0]->command[2];
        lemma_steps(script);
        lemma_awaited_one(t.effects[0]);
        assert(t.effects =~= seq![t.effects[0]]);
    }
}

proof fn lemma_flight_sync(s: StateView, out: Seq<char>, client_id: u16)
    requires
        s.busy,
    ensures
        awaited(s.on_sync(out, client_id).effects) == in_flight(s.on_sync(out, client_id).state),
{
    let synced = s.synced(out);
    let t = s.on_sync(out, client_id);
    law_sync_changes_plugins_and_failures_only(s, out);
    lemma_awaited_done(synced, synced.report_text(client_id));
    lemma_steps(grant_script_of(synced.plugins));
    if !(s.verb == Some(Verb::Status) || s.verb == Some(Verb::Check)) {
        lemma_awaited_one(t.effects[0]);
        assert(t.effects =~= seq![t.effects[0]]);
    }
}

proof fn lemma_flight_apply(s: StateView, client_id: u16)
    ensures
        awaited(s.apply(client_id).effects) == in_flight(s.apply(client_id).state),
{
    let blocks = blocks_of(s.plugins);
    let next = StateView { applied: blocks, ..s };
    lemma_awaited_apply(blocks);
    lemma_awaited_done(next, next.report_text(client_id));
    lemma_awaited_add(apply_all(blocks), next.finish(client_id).effects);
}

proof fn lemma_flight_clients(s: StateView, now: usize, client_id: u16)
    requires
        s.wf(),
    ensures
        in_flight(s) + awaited(s.on_clients(now, client_id).effects) == in_flight(
            s.on_clients(now, client_id).state,
        ),
{
    let t = s.on_clients(now, client_id);
    let counted = StateView { clients: Some(now), ..s };
    lemma_steps(Seq::empty());
    assert(awaited(Seq::<EffectView>::empty()) == 0);
    lemma_awaited_begin(StateView { permitted: true, ..counted }, Verb::Install);
    lemma_awaited_begin(counted, Verb::Install);
    if s.permitted && arrived(s.clients, now) && s.applied.len() > 0 {
        lemma_awaited_apply(s.applied);
        lemma_awaited_one(t.effects.last());
        lemma_awaited_add(apply_all(s.applied), seq![t.effects.last()]);
        assert(t.effects =~= apply_all(s.applied) + seq![t.effects.last()]);
    }
}

proof fn lemma_flight_pipe(s: StateView, message: PipeMessageView)
    requires
        s.wf(),
    ensures
        in_flight(s) + awaited(s.pipe(message).effects) == in_flight(s.pipe(message).state),
{
    lemma_steps(Seq::empty());
    assert(awaited(Seq::<EffectView>::empty()) == 0);
    match Verb::spec_from_name(message.name) {
        None => {},
        Some(verb) => {
            let told = match message.cli {
                Some(id) => seq![
                    EffectView::CliPipeOutput {
                        id,
                        output: acknowledgement_of(
                            message.name,
                            s.permitted,
                            s.busy,
                        ),
                    },
                    EffectView::UnblockCliPipeInput { id },
                ],
                None => Seq::empty(),
            };
            if message.cli is Some {
                lemma_awaited_one(told[0]);
                lemma_awaited_one(told[1]);
                lemma_awaited_add(seq![told[0]], seq![told[1]]);
                assert(told =~= seq![told[0]] + seq![told[1]]);
            }
            assert(awaited(told) == 0);
            lemma_awaited_begin(s, verb);
            lemma_awaited_add(told, s.begin(verb).effects);
            lemma_awaited_add(told, Seq::empty());
        },
    }
}

// ── what a run may touch ────────────────────────────────────────────────────────────────────────

/// Whether an effect leaves the configuration file alone.
pub open spec fn spares_config_file(effect: EffectView) -> bool {
    effect matches EffectView::Reconfigure { config, save } ==> !save
}

/// The configuration file on disk is never touched: whatever is applied is applied to the live
/// session only.
pub proof fn law_configuration_file_is_never_written(s: StateView, input: Input)
    ensures
        forall|i: int|
            0 <= i < s.take(input).effects.len() ==> spares_config_file(
                #[trigger] s.take(input).effects[i],
            ),
{
}

/// Nothing is applied before the permissions are granted: blocks are applied only when the grant
/// step has ended, or, if a client attaches, those that were applied before.
pub proof fn law_nothing_is_applied_before_the_grant(s: StateView, input: Input)
    requires
        result_step(input) != "grant"@,
    ensures
        forall|i: int|
            0 <= i < s.take(input).effects.len() ==> (
            #[trigger] s.take(input).effects[i] matches EffectView::Reconfigure { config, save }
                ==> s.applied.contains(config)),
{
    assert forall|i: int| 0 <= i < s.take(input).effects.len() implies (
    #[trigger] s.take(input).effects[i] matches EffectView::Reconfigure { config, save }
        ==> s.applied.contains(config)) by {
        if s.take(input).effects[i] is Reconfigure {
            assert(s.take(input).effects[i] == apply_live(s.applied[i]));
        }
    }
}

/// Only the grant step's result changes what counts as applied.
pub proof fn law_only_a_grant_changes_what_is_applied(s: StateView, input: Input)
    requires
        result_step(input) != "grant"@,
    ensures
        s.take(input).state.applied == s.applied,
{
    match input {
        Input::Event(EventView::RunCommandResult(_, stdout, _, context), client_id) => {
            law_sync_changes_plugins_and_failures_only(s, lossy(stdout));
        },
        _ => {},
    }
}

/// A permission that has been granted stays granted.
pub proof fn law_permissions_stay(s: StateView, input: Input)
    requires
        s.permitted,
    ensures
        s.take(input).state.permitted,
{
    match input {
        Input::Event(EventView::RunCommandResult(_, stdout, _, context), client_id) => {
            law_sync_changes_plugins_and_failures_only(s, lossy(stdout));
        },
        _ => {},
    }
}

proof fn lemma_after_keeps_applied(s: StateView, inputs: Seq<Input>)
    requires
        s.permitted,
        forall|i: int| 0 <= i < inputs.len() ==> result_step(#[trigger] inputs[i]) != "grant"@,
    ensures
        s.after(inputs).applied == s.applied,
        s.after(inputs).permitted,
    decreases inputs.len(),
{
    if inputs.len() > 0 {
        let before = inputs.drop_last();
        assert forall|i: int| 0 <= i < before.len() implies result_step(#[trigger] before[i])
            != "grant"@ by {
            assert(before[i] == inputs[i]);
        }
        lemma_after_keeps_applied(s, before);
        assert(inputs.last() == inputs[inputs.len() - 1]);
        law_only_a_grant_changes_what_is_applied(s.after(before), inputs.last());
        law_permissions_stay(s.after(before), inputs.last());
    }
}

/// The blocks that the effects apply, in order.
pub open spec fn reconfigured(effects: Seq<EffectView>) -> Seq<Seq<char>>
    decreases effects.len(),
{
    if effects.len() == 0 {
        Seq::empty()
    } else {
        match effects.last() {
            EffectView::Reconfigure { config, save } => reconfigured(effects.drop_last()).push(
                config,
            ),
            _ => reconfigured(effects.drop_last()),
        }
    }
}

proof fn lemma_reconfigured_add(a: Seq<EffectView>, b: Seq<EffectView>)
    ensures
        reconfigured(a + b) == reconfigured(a) + reconfigured(b),
    decreases b.len(),
{
    if b.len() == 0 {
        assert(a + b =~= a);
        assert(reconfigured(a) + reconfigured(b) =~= reconfigured(a));
    } else {
        assert((a + b).drop_last() =~= a + b.drop_last());
        lemma_reconfigured_add(a, b.drop_last());
        assert(reconfigured(a + b) =~= reconfigured(a) + reconfigured(b));
    }
}

proof fn lemma_reconfigured_none(effects: Seq<EffectView>)
    requires
        forall|i: int|
            0 <= i < effects.len() ==> !(#[trigger] effects[i] is Reconfigure),
    ensures
        reconfigured(effects) == Seq::<Seq<char>>::empty(),
    decreases effects.len(),
{
    if effects.len() > 0 {
        assert(effects.last() == effects[effects.len() - 1]);
        let before = effects.drop_last();
        assert forall|i: int| 0 <= i < before.len() implies !(
        #[trigger] before[i] is Reconfigure) by {
            assert(before[i] == effects[i]);
        }
        lemma_reconfigured_none(before);
    }
}

proof fn lemma_reconfigured_apply(blocks: Seq<Seq<char>>)
    ensures
        reconfigured(apply_all(blocks)) == blocks,
    decreases blocks.len(),
{
    if blocks.len() > 0 {
        lemma_reconfigured_apply(blocks.drop_last());
        assert(apply_all(blocks).drop_last() =~= apply_all(blocks.drop_last()));
        assert(apply_all(blocks).last() == apply_live(blocks.last()));
        assert(blocks.drop_last().push(blocks.last()) =~= blocks);
    } else {
        assert(reconfigured(apply_all(blocks)) =~= blocks);
    }
}

/// A run applies the keybinds blocks of its plugins, in order, and remembers them.
pub proof fn law_a_run_applies_its_blocks(s: StateView, client_id: u16)
    ensures
        reconfigured(s.apply(client_id).effects) == blocks_of(s.plugins),
        s.apply(client_id).state.applied == blocks_of(s.plugins),
{
    let blocks = blocks_of(s.plugins);
    let next = StateView { applied: blocks, ..s };
    let rest = next.finish(client_id).effects;
    lemma_reconfigured_apply(blocks);
    lemma_reconfigured_none(rest);
    lemma_reconfigured_add(apply_all(blocks), rest);
    assert(blocks + Seq::empty() =~= blocks);
}

/// A client that enters the session gets the keybinds back. Let a run apply its blocks, and let
/// anything happen after it but another run's getting that far; when an update then shows that the
/// number of clients has risen, exactly the same blocks are applied again, in the same order. If
/// the run had none, a new run is begun, unless one is going on.
pub proof fn law_an_attaching_client_gets_the_keybinds_back(
    s: StateView,
    client_id: u16,
    inputs: Seq<Input>,
    sessions: Seq<SessionInfo>,
    arriving: u16,
)
    requires
        s.permitted,
        forall|i: int| 0 <= i < inputs.len() ==> result_step(#[trigger] inputs[i]) != "grant"@,
        current_session(sessions, 0) matches Some(here) && arrived(
            s.apply(client_id).state.after(inputs).clients,
            here.connected_clients,
        ),
    ensures
        ({
            let ran = s.apply(client_id);
            let then = ran.state.after(inputs);
            let turn = then.update(EventView::SessionUpdate(sessions), arriving);
            &&& reconfigured(turn.effects) == reconfigured(ran.effects)
            &&& reconfigured(ran.effects).len() == 0 && !then.busy ==> turn.state.busy
                && turn.state.verb == Some(Verb::Install)
        }),
{
    let ran = s.apply(client_id);
    let then = ran.state.after(inputs);
    let turn = then.update(EventView::SessionUpdate(sessions), arriving);
    law_a_run_applies_its_blocks(s, client_id);
    lemma_after_keeps_applied(ran.state, inputs);
    if then.applied.len() > 0 {
        let line = turn.effects.last();
        lemma_reconfigured_apply(then.applied);
        lemma_reconfigured_none(seq![line]);
        lemma_reconfigured_add(apply_all(then.applied), seq![line]);
        assert(turn.effects =~= apply_all(then.applied) + seq![line]);
        assert(then.applied + Seq::empty() =~= then.applied);
    } else {
        lemma_reconfigured_none(turn.effects);
        assert(reconfigured(ran.effects) =~= Seq::<Seq<char>>::empty());
    }
}

/// A client that leaves, or an update that changes nothing, is no reason to touch anything; nor is
/// the first update of a manager that has its permissions, which only sets the baseline.
pub proof fn law_only_a_rise_reapplies(s: StateView, sessions: Seq<SessionInfo>, client_id: u16)
    requires
        s.permitted,
        current_session(sessions, 0) matches Some(here) && !(s.clients matches Some(before)
            && here.connected_clients > before),
    ensures
        s.update(EventView::SessionUpdate(sessions), client_id) == (Turn {
            state: StateView {
                clients: Some(current_session(sessions, 0)->0.connected_clients),
                ..s
            },
            effects: Seq::empty(),
        }),
{
}

/// Status and check only look: such a run applies nothing, grants nothing, and leaves what counts
/// as applied as it was. Its only steps are those that read, and that write the report.
pub proof fn law_status_and_check_only_look(s: StateView, out: Seq<char>, client_id: u16)
    requires
        s.verb == Some(Verb::Status) || s.verb == Some(Verb::Check),
    ensures
        forall|i: int|
            0 <= i < s.on_manifest(out).effects.len() ==> !((
            #[trigger] s.on_manifest(out).effects[i]) is Reconfigure) && started_step(
                s.on_manifest(out).effects[i],
            ) != "grant"@,
        forall|i: int|
            0 <= i < s.on_sync(out, client_id).effects.len() ==> !((#[trigger] s.on_sync(
                out,
                client_id,
            ).effects[i]) is Reconfigure) && started_step(s.on_sync(out, client_id).effects[i])
                != "grant"@,
        s.on_manifest(out).state.applied == s.applied,
        s.on_sync(out, client_id).state.applied == s.applied,
{
    law_sync_changes_plugins_and_failures_only(s, out);
    lemma_any_step();
    reveal_strlit("grant");
    assert("grant"@.len() > 0);
}

proof fn lemma_any_step()
    ensures
        forall|script: Seq<char>|
            started_step(#[trigger] step_command("manifest"@, script)) != "grant"@,
        forall|script: Seq<char>|
            started_step(#[trigger] step_command("sync"@, script)) != "grant"@,
        forall|script: Seq<char>|
            started_step(#[trigger] step_command("report"@, script)) != "grant"@,
{
    reveal_strlit("grant");
    reveal_strlit("report");
    assert("grant"@[0] == 'g' && "report"@[0] == 'r');
    assert forall|script: Seq<char>|
        started_step(#[trigger] step_command("manifest"@, script)) != "grant"@ by {
        lemma_steps(script);
    }
    assert forall|script: Seq<char>| started_step(#[trigger] step_command("sync"@, script))
        != "grant"@ by {
        lemma_steps(script);
    }
    assert forall|script: Seq<char>|
        started_step(#[trigger] step_command("report"@, script)) != "grant"@ by {
        lemma_steps(script);
    }
}

// ── verbs ───────────────────────────────────────────────────────────────────────────────────────

/// A command line is answered at once, before anything else and whatever becomes of its verb; the
/// verb then waits for nothing but its turn.
pub proof fn law_the_command_line_is_answered_at_once(s: StateView, message: PipeMessageView)
    requires
        message.cli is Some,
        Verb::spec_from_name(message.name) is Some,
    ensures
        s.pipe(message).effects.len() >= 2,
        s.pipe(message).effects[0] == (EffectView::CliPipeOutput {
            id: message.cli->0,
            output: acknowledgement_of(message.name, s.permitted, s.busy),
        }),
        s.pipe(message).effects[1] == (EffectView::UnblockCliPipeInput { id: message.cli->0 }),
{
}

/// A message that is none of ours, such as another plugin's broadcast, changes nothing.
pub proof fn law_foreign_messages_are_ignored(s: StateView, message: PipeMessageView)
    requires
        Verb::spec_from_name(message.name) is None,
    ensures
        s.pipe(message) == s.ignore(),
        s.pipe(message).state == s,
        s.pipe(message).effects.len() == 0,
{
}

/// The latest wish wins: of two verbs that are piped during a run, only the second is kept.
pub proof fn law_the_latest_wish_wins(
    s: StateView,
    first: PipeMessageView,
    second: PipeMessageView,
)
    requires
        s.permitted,
        s.busy,
        Verb::spec_from_name(first.name) is Some,
        Verb::spec_from_name(second.name) is Some,
    ensures
        s.pipe(first).state.pipe(second).state == s.pipe(second).state,
{
}

/// A verb that is piped during a run is begun when the run ends, and only then.
pub proof fn law_a_queued_verb_is_begun_when_the_run_ends(
    s: StateView,
    message: PipeMessageView,
    report: Seq<char>,
)
    requires
        s.permitted,
        s.busy,
        Verb::spec_from_name(message.name) is Some,
    ensures
        s.pipe(message).state.verb == s.verb,
        awaited(s.pipe(message).effects) == 0,
        ({
            let ended = s.pipe(message).state.done(report);
            &&& ended.state.busy
            &&& ended.state.verb == Verb::spec_from_name(message.name)
            &&& ended.state.queued is None
            &&& ended.effects.last() == step_command(
                "manifest"@,
                manifest_script_of(),
            )
        }),
{
    let told = s.pipe(message).effects;
    lemma_steps(Seq::empty());
    if message.cli is Some {
        lemma_awaited_one(told[0]);
        lemma_awaited_one(told[1]);
        lemma_awaited_add(seq![told[0]], seq![told[1]]);
        assert(told =~= seq![told[0]] + seq![told[1]]);
    } else {
        assert(told =~= Seq::empty());
    }
}

/// Without the permissions nothing is run, and nothing is queued.
pub proof fn law_nothing_runs_without_permissions(s: StateView, message: PipeMessageView)
    requires
        !s.permitted,
    ensures
        s.pipe(message).state == s,
{
}

/// Session start realizes the manifest: the grant, or the first update of the current session if
/// no grant is heard of, begins an install, and it does so only once.
pub proof fn law_session_start_installs(s: StateView, sessions: Seq<SessionInfo>, client_id: u16)
    requires
        !s.permitted,
        current_session(sessions, 0) is Some,
    ensures
        ({
            let granted = EventView::PermissionRequestResult(PermissionStatus::Granted);
            let by_grant = s.update(granted, client_id);
            let by_update = s.update(EventView::SessionUpdate(sessions), client_id);
            &&& by_grant == (StateView { permitted: true, ..s }).begin(Verb::Install)
            &&& by_update == (StateView {
                permitted: true,
                clients: Some(current_session(sessions, 0)->0.connected_clients),
                ..s
            }).begin(Verb::Install)
            &&& by_grant.state.update(granted, client_id) == by_grant.state.ignore()
            &&& by_update.state.update(granted, client_id) == by_update.state.ignore()
        }),
{
}

// ── the course of a run ─────────────────────────────────────────────────────────────────────────

/// Whether a turn ends the run: it logs a report, and writes the same report down.
pub open spec fn ends_run(turn: Turn) -> bool {
    exists|i: int|
        {
            &&& 0 <= i < turn.effects.len() - 1
            &&& #[trigger] turn.effects[i] matches EffectView::Log(report)
            &&& turn.effects[i + 1] == step_command("report"@, report_script_of(report))
        }
}

/// A turn that ends a run still does so behind other effects.
pub proof fn lemma_done_ends(s: StateView, report: Seq<char>, before: Seq<EffectView>)
    ensures
        ends_run(s.done(report).after(before)),
{
    let turn = s.done(report).after(before);
    let i = before.len() as int;
    assert(turn.effects[i] == EffectView::Log(report));
    assert(turn.effects[i + 1] == step_command("report"@, report_script_of(report)));
}

/// Every run ends, after three steps at most: the manifest's result ends it or starts the sync,
/// the sync's result ends it (as it does for status and check) or starts the grant, and the
/// grant's result ends it. A run that has ended leaves the manager idle, unless a verb was queued.
pub proof fn law_every_run_ends(s: StateView, out: Seq<char>, client_id: u16)
    ensures
        ends_run(s.on_manifest(out)) || s.on_manifest(out).effects.len() == 1 && started_step(
            s.on_manifest(out).effects[0],
        ) == "sync"@,
        s.verb == Some(Verb::Status) || s.verb == Some(Verb::Check) ==> ends_run(
            s.on_sync(out, client_id),
        ),
        ends_run(s.on_sync(out, client_id)) || s.on_sync(out, client_id).effects.len() == 1
            && started_step(s.on_sync(out, client_id).effects[0]) == "grant"@,
        ends_run(s.apply(client_id)),
        s.apply(client_id).state.busy <==> s.queued is Some,
        s.apply(client_id).state.verb == s.queued,
{
    let parts = match split_pair(out, '\n') {
        Some(parts) => parts,
        None => (Seq::empty(), out),
    };
    let known = StateView { home: trimmed(parts.0), ..s };
    let nothing = nothing_to_manage();
    lemma_done_ends(known, nothing, Seq::empty());
    assert(known.done(nothing).after(Seq::empty()) =~= known.done(nothing));
    let t = s.on_manifest(out);
    lemma_steps(t.effects[0]->command[2]);
    let synced = s.synced(out);
    lemma_done_ends(synced, synced.report_text(client_id), Seq::empty());
    assert(synced.finish(client_id).after(Seq::empty()) =~= synced.finish(client_id));
    lemma_steps(grant_script_of(synced.plugins));
    let blocks = blocks_of(s.plugins);
    let next = StateView { applied: blocks, ..s };
    lemma_done_ends(next, next.report_text(client_id), apply_all(blocks));
}

/// A run knows the plugins that the manifest names, in order, and no others: what an earlier run
/// knew is forgotten, so an entry that is removed from the manifest is simply gone.
pub proof fn law_a_run_follows_the_manifest(
    s: StateView,
    verb: Verb,
    home: Seq<char>,
    text: Seq<char>,
)
    requires
        !home.contains('\n'),
    ensures
        ({
            let entries = entries_of(lines_of(text));
            let turn = s.begin(verb).state.on_manifest(home + seq!['\n'] + text);
            let found = plugins_of(entries, trimmed(home));
            if entries.len() > 0 {
                &&& turn.state.plugins == found
                &&& turn.state.verb == Some(verb)
                &&& turn.effects == seq![
                    step_command("sync"@, sync_script_of(verb, found)),
                ]
            } else {
                ends_run(turn)
            }
        }),
{
    let out = home + seq!['\n'] + text;
    lemma_find_unique(out, '\n', 0, home.len() as int);
    assert(out.take(home.len() as int) =~= home);
    assert(out.skip(home.len() as int + 1) =~= text);
    let entries = entries_of(lines_of(text));
    let begun = s.begin(verb).state;
    let found = plugins_of(entries, trimmed(home));
    assert(begun.plugins + found =~= found);
    let known = StateView { home: trimmed(home), ..begun };
    let nothing = nothing_to_manage();
    lemma_done_ends(known, nothing, Seq::empty());
    assert(known.done(nothing).after(Seq::empty()) =~= known.done(nothing));
}

/// Whether two lists name the same plugins from the same sources, in the same order.
pub open spec fn same_sources(a: Seq<ManagedView>, b: Seq<ManagedView>) -> bool {
    &&& a.len() == b.len()
    &&& forall|i: int|
        0 <= i < a.len() ==> (#[trigger] a[i]).name == b[i].name && a[i].github == b[i].github
            && a[i].root == b[i].root
}

/// The plugin that is found is the first of its name.
pub proof fn lemma_plugin_index(plugins: Seq<ManagedView>, name: Seq<char>, from: int)
    requires
        0 <= from <= plugins.len(),
    ensures
        ({
            let i = plugin_index(plugins, name, from);
            &&& from <= i <= plugins.len()
            &&& i < plugins.len() ==> plugins[i].name == name
            &&& forall|j: int| from <= j < i ==> (#[trigger] plugins[j]).name != name
        }),
    decreases plugins.len() - from,
{
    if from < plugins.len() && plugins[from].name != name {
        lemma_plugin_index(plugins, name, from + 1);
    }
}

proof fn lemma_sync_lines_keep_sources(s: StateView, lines: Seq<Seq<char>>)
    ensures
        same_sources(s.plugins, s.sync_lines(lines).plugins),
    decreases lines.len(),
{
    if lines.len() > 0 {
        let before = s.sync_lines(lines.drop_last());
        lemma_sync_lines_keep_sources(s, lines.drop_last());
    }
}

proof fn lemma_sync_sections_keep_sources(s: StateView, sections: Seq<Seq<char>>)
    ensures
        same_sources(s.plugins, s.sync_sections(sections).plugins),
    decreases sections.len(),
{
    if sections.len() > 0 {
        let before = s.sync_sections(sections.drop_last());
        lemma_sync_sections_keep_sources(s, sections.drop_last());
        let (name, body) = section_parts(sections.last());
        let i = section_owner(before.plugins, name, sections.len() - 1);
        lemma_plugin_index(before.plugins, name, 0);
        if i < before.plugins.len() {
            lemma_read_lines_keep_rest(before.plugins[i], lines_of(body));
        }
    }
}

/// Whatever the host prints, the sync step adds no plugin, drops none and renames none.
pub proof fn law_sync_keeps_the_list(s: StateView, out: Seq<char>)
    ensures
        same_sources(s.plugins, s.synced(out).plugins),
{
    let lines = lines_of(out);
    let lined = s.sync_lines(lines);
    lemma_sync_lines_keep_sources(s, lines);
    lemma_sync_sections_keep_sources(lined, sections_of(out));
    assert forall|i: int| 0 <= i < s.plugins.len() implies (#[trigger] s.plugins[i]).name
        == s.synced(out).plugins[i].name && s.plugins[i].github == s.synced(out).plugins[i].github
        && s.plugins[i].root == s.synced(out).plugins[i].root by {
        assert(s.plugins[i].name == lined.plugins[i].name);
    }
}

// ── the sync step's output ──────────────────────────────────────────────────────────────────────

/// The section of the sync step's output that is about a plugin: its name on the marker's line,
/// then what was printed up to the next marker, which is its manifest and what git had to say of
/// the next plugin.
pub open spec fn section_text(name: Seq<char>, body: Seq<char>) -> Seq<char> {
    name + seq!['\n'] + body
}

/// The sections of some plugins.
pub open spec fn section_texts(
    plugins: Seq<ManagedView>,
    bodies: Seq<Seq<char>>,
) -> Seq<Seq<char>> {
    Seq::new(plugins.len(), |i: int| section_text(plugins[i].name, bodies[i]))
}

/// What the sync step prints: something before the first marker, such as the failures, and then
/// the sections, each behind a marker.
pub open spec fn sync_output(
    before: Seq<char>,
    plugins: Seq<ManagedView>,
    bodies: Seq<Seq<char>>,
) -> Seq<char> {
    joined(seq![before] + section_texts(plugins, bodies), "===PLUGIN "@)
}

/// Whether every plugin's name fits on one line.
pub open spec fn names_fit_a_line(plugins: Seq<ManagedView>) -> bool {
    forall|i: int| 0 <= i < plugins.len() ==> !(#[trigger] plugins[i]).name.contains('\n')
}

/// The names of a run's plugins fit on one line, whatever the manifest holds.
pub proof fn law_names_of_a_run_fit_a_line(text: Seq<char>, home: Seq<char>)
    ensures
        names_fit_a_line(plugins_of(entries_of(lines_of(text)), home)),
{
    let entries = entries_of(lines_of(text));
    let plugins = plugins_of(entries, home);
    assert forall|i: int| 0 <= i < plugins.len() implies !(#[trigger] plugins[i]).name.contains(
        '\n',
    ) by {
        law_entries_can_be_listed(text, i);
        let entry = entries[i];
        let name = plugins[i].name;
        match without_prefix(entry, "file:"@) {
            Some(path) => {
                lemma_after_last(path, '/', path.len() as int);
                assert forall|j: int| 0 <= j < name.len() implies name[j] != '\n' by {
                    let n = after_last(path, '/', path.len() as int);
                    assert(name[j] == path[n + j]);
                    assert(path[n + j] == entry["file:"@.len() + n + j]);
                }
            },
            None => {
                lemma_after_last(entry, '/', entry.len() as int);
                assert forall|j: int| 0 <= j < name.len() implies name[j] != '\n' by {
                    assert(name[j] == entry[after_last(entry, '/', entry.len() as int) + j]);
                }
            },
        }
    }
}

proof fn lemma_after_last(s: Seq<char>, c: char, to: int)
    requires
        0 <= to <= s.len(),
    ensures
        0 <= after_last(s, c, to) <= to,
    decreases to,
{
    if to > 0 && s[to - 1] != c {
        lemma_after_last(s, c, to - 1);
    }
}

/// Two markers of a section cannot overlap.
pub proof fn lemma_marker()
    ensures
        "===PLUGIN "@.len() > 0,
        unbordered("===PLUGIN "@),
{
    reveal_strlit("===PLUGIN ");
    let p = "===PLUGIN "@;
    assert(p.len() == 10);
    assert(p[9] == ' ');
    assert forall|k: int| 0 < k < p.len() implies #[trigger] p.skip(k) != p.take(p.len() - k) by {
        assert(p.skip(k)[9 - k] == ' ');
        assert(p.take(p.len() - k)[9 - k] == p[9 - k]);
        assert(p[9 - k] != ' ');
    }
}

proof fn lemma_sections_read(s: StateView, bodies: Seq<Seq<char>>, k: int)
    requires
        bodies.len() == s.plugins.len(),
        names_fit_a_line(s.plugins),
        0 <= k <= s.plugins.len(),
    ensures
        ({
            let read = s.sync_sections(section_texts(s.plugins, bodies).take(k));
            &&& read.home == s.home
            &&& read.plugins.len() == s.plugins.len()
            &&& forall|i: int|
                0 <= i < k ==> #[trigger] read.plugins[i] == s.plugins[i].read_section(
                    bodies[i],
                    s.home,
                )
            &&& forall|i: int|
                k <= i < s.plugins.len() ==> #[trigger] read.plugins[i] == s.plugins[i]
        }),
    decreases k,
{
    let all = section_texts(s.plugins, bodies);
    if k > 0 {
        lemma_sections_read(s, bodies, k - 1);
        assert(all.take(k).drop_last() =~= all.take(k - 1));
        assert(all.take(k).last() == section_text(s.plugins[k - 1].name, bodies[k - 1]));
        let before = s.sync_sections(all.take(k - 1));
        let name = s.plugins[k - 1].name;
        assert(!name.contains('\n'));
        lemma_split_pair(name, '\n', bodies[k - 1]);
        assert(before.plugins[k - 1] == s.plugins[k - 1]);
        assert(section_owner(before.plugins, trimmed(name), k - 1) == k - 1);
    } else {
        assert(all.take(0) =~= Seq::empty());
    }
}

/// Every plugin's own manifest reaches that plugin: if the sync step prints a section for each
/// plugin of the run, in order, and no section holds the marker, then each plugin reads what was
/// printed for it, and nothing else. It does not matter whether others bear the same name.
pub proof fn law_every_manifest_reaches_its_plugin(
    s: StateView,
    before: Seq<char>,
    bodies: Seq<Seq<char>>,
    i: int,
)
    requires
        bodies.len() == s.plugins.len(),
        names_fit_a_line(s.plugins),
        !contains(before, "===PLUGIN "@),
        forall|j: int|
            0 <= j < bodies.len() ==> !contains(
                section_text(s.plugins[j].name, #[trigger] bodies[j]),
                "===PLUGIN "@,
            ),
        0 <= i < s.plugins.len(),
    ensures
        ({
            let out = sync_output(before, s.plugins, bodies);
            let lined = s.sync_lines(lines_of(out));
            &&& sections_of(out) == section_texts(s.plugins, bodies)
            &&& lined.plugins[i] == (ManagedView {
                check: lined.plugins[i].check,
                ..s.plugins[i]
            })
            &&& s.synced(out).plugins[i] == lined.plugins[i].read_section(bodies[i], s.home)
        }),
{
    let out = sync_output(before, s.plugins, bodies);
    let lines = lines_of(out);
    let lined = s.sync_lines(lines);
    let sections = section_texts(s.plugins, bodies);
    let pieces = seq![before] + sections;
    lemma_marker();
    assert forall|j: int| 0 <= j < pieces.len() implies !contains(
        #[trigger] pieces[j],
        "===PLUGIN "@,
    ) by {
        if j > 0 {
            assert(pieces[j] == section_text(s.plugins[j - 1].name, bodies[j - 1]));
        }
    }
    law_splitting_undoes_joining(pieces, "===PLUGIN "@);
    assert(pieces.drop_first() =~= sections);
    lemma_sync_lines_keep(s, lines);
    lemma_sync_lines_keep_sources(s, lines);
    lemma_sync_lines_only_check(s, lines);
    assert(section_texts(lined.plugins, bodies) =~= sections) by {
        assert forall|j: int| 0 <= j < sections.len() implies section_texts(
            lined.plugins,
            bodies,
        )[j] == sections[j] by {
            assert(s.plugins[j].name == lined.plugins[j].name);
        }
    }
    assert(names_fit_a_line(lined.plugins)) by {
        assert forall|j: int| 0 <= j < lined.plugins.len() implies !(
        #[trigger] lined.plugins[j]).name.contains('\n') by {
            assert(s.plugins[j].name == lined.plugins[j].name);
        }
    }
    lemma_sections_read(lined, bodies, sections.len() as int);
    assert(sections.take(sections.len() as int) =~= sections);
}

/// Whatever lines the host prints, they change what a check has found of a plugin, and nothing else
/// that is known of it.
pub proof fn lemma_sync_lines_only_check(s: StateView, lines: Seq<Seq<char>>)
    ensures
        s.sync_lines(lines).plugins.len() == s.plugins.len(),
        forall|i: int|
            0 <= i < s.plugins.len() ==> #[trigger] s.sync_lines(lines).plugins[i] == (
            ManagedView { check: s.sync_lines(lines).plugins[i].check, ..s.plugins[i] }),
    decreases lines.len(),
{
    if lines.len() > 0 {
        lemma_sync_lines_only_check(s, lines.drop_last());
    }
}

/// What a check has found of a clone reaches every plugin that uses this clone, and no other: the
/// plugins of its name that come from git, if the name is one word. A local plugin of the same
/// name stays as it is.
pub proof fn law_a_check_reaches_its_plugins(
    s: StateView,
    name: Seq<char>,
    found: Seq<char>,
    i: int,
)
    requires
        !name.contains(' '),
        0 <= i < s.plugins.len(),
    ensures
        s.sync_line("@@CHECK "@ + name + seq![' '] + found).plugins[i] == (if s.plugins[i].name
            == name && s.plugins[i].github is Some {
            ManagedView { check: Some(trimmed(found)), ..s.plugins[i] }
        } else {
            s.plugins[i]
        }),
{
    let line = "@@CHECK "@ + name + seq![' '] + found;
    let check = name + seq![' '] + found;
    let n = "@@CHECK "@.len() as int;
    assert(line.subrange(0, n) =~= "@@CHECK "@);
    assert(line.skip(n) =~= check);
    lemma_split_pair(name, ' ', found);
}

// ── reports ─────────────────────────────────────────────────────────────────────────────────────

/// A report says whose it is: the headlines of two clients differ.
pub proof fn law_a_report_says_whose_it_is(verb: Option<Verb>, a: u16, b: u16)
    requires
        headline_of(verb, a) == headline_of(verb, b),
    ensures
        a == b,
{
    let x = decimal(a as nat);
    let y = decimal(b as nat);
    let head = "lvim-zpm "@ + (match verb {
        Some(v) => v.spec_name(),
        None => "install"@,
    }) + " (client "@;
    let end = "):"@;
    let s = headline_of(verb, a);
    let t = headline_of(verb, b);
    assert(s =~= head + x + end);
    assert(t =~= head + y + end);
    assert(x =~= s.subrange(head.len() as int, s.len() - end.len()));
    assert(y =~= t.subrange(head.len() as int, t.len() - end.len()));
    law_numbers_can_be_told_apart(a as nat, b as nat);
}

/// Texts whose lines are the same up to a line that goes on in one of them, and ends in the other,
/// are not the same.
proof fn lemma_lines_differ(a: Seq<Seq<char>>, b: Seq<Seq<char>>, more: Seq<char>, i: int)
    requires
        a.len() == b.len(),
        0 <= i < a.len(),
        forall|j: int| 0 <= j < i ==> a[j] == b[j],
        a[i] == b[i] + more,
        more.len() > 0,
        more[0] != '\n',
    ensures
        joined(a, "\n"@) != joined(b, "\n"@),
    decreases a.len(),
{
    reveal_strlit("\n");
    let x = joined(a, "\n"@);
    let y = joined(b, "\n"@);
    if a.len() > 1 {
        lemma_joined_front(a, "\n"@);
        lemma_joined_front(b, "\n"@);
    }
    if i == 0 {
        let n = b[0].len() as int;
        assert(x[n] == more[0]);
        if x == y {
            assert(y.len() > n);
            assert(y[n] == '\n');
        }
    } else {
        let n = a[0].len() + 1;
        lemma_lines_differ(a.drop_first(), b.drop_first(), more, i - 1);
        assert(x.skip(n as int) =~= joined(a.drop_first(), "\n"@));
        assert(y.skip(n as int) =~= joined(b.drop_first(), "\n"@));
    }
}

/// The first plugin that two states have applied differently.
proof fn lemma_first_difference(s: StateView, t: StateView, i: int) -> (k: int)
    requires
        0 <= i < s.plugins.len(),
        is_applied(s, i) != is_applied(t, i),
    ensures
        0 <= k <= i,
        is_applied(s, k) != is_applied(t, k),
        forall|j: int| 0 <= j < k ==> #[trigger] is_applied(s, j) == is_applied(t, j),
    decreases i,
{
    if exists|j: int| 0 <= j < i && #[trigger] is_applied(s, j) != is_applied(t, j) {
        let j = choose|j: int| 0 <= j < i && #[trigger] is_applied(s, j) != is_applied(t, j);
        lemma_first_difference(s, t, j)
    } else {
        i
    }
}

/// Whether the keybinds block of plugin number `i` is among those that are applied.
pub open spec fn is_applied(s: StateView, i: int) -> bool {
    s.plugins[i].keybinds matches Some(block) && s.applied.contains(block)
}

proof fn lemma_status_lines(s: StateView, t: StateView, k: int, client_id: u16)
    requires
        s.verb == Some(Verb::Status),
        t == (StateView { applied: t.applied, ..s }),
        0 <= k < s.plugins.len(),
        is_applied(s, k),
        !is_applied(t, k),
        forall|j: int| 0 <= j < k ==> #[trigger] is_applied(s, j) == is_applied(t, j),
    ensures
        s.report_text(client_id) != t.report_text(client_id),
{
    let a = seq![headline_of(s.verb, client_id)] + plugin_lines_of(s.plugins, s.verb, s.applied)
        + s.report;
    let b = seq![headline_of(t.verb, client_id)] + plugin_lines_of(t.plugins, t.verb, t.applied)
        + t.report;
    let more = " — keybinds applied"@;
    reveal_strlit(" — keybinds applied");
    reveal_strlit("");
    assert(more[0] == ' ');
    assert forall|j: int| 0 <= j < k + 1 implies a[j] == b[j] by {
        if j > 0 {
            assert(is_applied(s, j - 1) == is_applied(t, j - 1));
        }
    }
    assert(b[k + 1] + more =~= a[k + 1]) by {
        let m = s.plugins[k];
        assert(a[k + 1] == plugin_line_of(m, s.verb, s.applied));
        assert(b[k + 1] == plugin_line_of(m, t.verb, t.applied));
        assert(outcome_of(m, s.verb, s.applied) == more);
        assert(outcome_of(m, t.verb, t.applied) =~= Seq::empty());
    }
    lemma_lines_differ(a, b, more, k + 1);
}

/// Status tells what is applied: if two managers differ only in what they have applied, and some
/// plugin's block is applied in one of them and not in the other, then the report that is logged
/// differs, and so does the one that is written down.
pub proof fn law_status_tells_what_is_applied(s: StateView, t: StateView, i: int, client_id: u16)
    requires
        s.verb == Some(Verb::Status),
        t == (StateView { applied: t.applied, ..s }),
        0 <= i < s.plugins.len(),
        is_applied(s, i) != is_applied(t, i),
    ensures
        s.finish(client_id).effects[0] == EffectView::Log(s.report_text(client_id)),
        t.finish(client_id).effects[0] == EffectView::Log(t.report_text(client_id)),
        s.report_text(client_id) != t.report_text(client_id),
        s.finish(client_id).effects[1] != t.finish(client_id).effects[1],
{
    let k = lemma_first_difference(s, t, i);
    if is_applied(s, k) {
        lemma_status_lines(s, t, k, client_id);
    } else {
        lemma_status_lines(t, s, k, client_id);
    }
    let x = s.report_text(client_id);
    let y = t.report_text(client_id);
    law_reports_are_written_down_apart(x, y);
    if s.finish(client_id).effects[1] == t.finish(client_id).effects[1] {
        assert(step_command("report"@, report_script_of(x))->command[2] == report_script_of(x));
        assert(step_command("report"@, report_script_of(y))->command[2] == report_script_of(y));
    }
}

} // verus!
