//! The manager: a state machine that takes the host's events and answers with effects.
//!
//! A run goes through steps on the host, each a shell script whose result comes back as an event:
//! `manifest` reads the user's manifest, `sync` brings the clones up to date and prints every
//! plugin's own manifest, `grant` installs and pre-grants, and the keybinds are applied last.
//! Runs are serialized: one at a time, with at most one verb queued behind it.
use vstd::prelude::*;
use vstd::string::*;

use crate::host::{
    effect_views, step_command, step_of, Effect, EffectView, EventType, EventView,
    PermissionStatus, PermissionType, PipeMessageView, SessionInfo,
};
use crate::manifest::entries_of;
use crate::plugin::{plugin_views, Managed, ManagedView};
use crate::script::{
    grant_script_of, manifest_script_of, plugin_of, report_script_of, sync_script_of, MANIFEST,
};
use crate::text::{
    decimal, joined, lines_of, lossy, replaced, split_at_text, split_pair, texts,
    trimmed, without_prefix,
};
use crate::verb::Verb;

verus! {

/// The manager's state.
pub struct State {
    /// The user's home directory on the host.
    pub home: String,
    /// Whether the host has granted the permissions.
    pub permitted: bool,
    /// Whether a run is going on.
    pub busy: bool,
    /// What the run is doing.
    pub verb: Option<Verb>,
    /// What to do once the run has ended.
    pub queued: Option<Verb>,
    /// The plugins of this run.
    pub plugins: Vec<Managed>,
    /// What went wrong on the host in this run.
    pub report: Vec<String>,
    /// The keybinds blocks that the last run applied: what an attaching client gets back.
    pub applied: Vec<String>,
    /// The clients that were connected to this session at the last session update.
    pub clients: Option<usize>,
}

/// The contents of a [`State`].
#[verifier::ext_equal]
pub struct StateView {
    pub home: Seq<char>,
    pub permitted: bool,
    pub busy: bool,
    pub verb: Option<Verb>,
    pub queued: Option<Verb>,
    pub plugins: Seq<ManagedView>,
    pub report: Seq<Seq<char>>,
    pub applied: Seq<Seq<char>>,
    pub clients: Option<usize>,
}

impl View for State {
    type V = StateView;

    open spec fn view(&self) -> StateView {
        StateView {
            home: self.home@,
            permitted: self.permitted,
            busy: self.busy,
            verb: self.verb,
            queued: self.queued,
            plugins: plugin_views(self.plugins@),
            report: texts(self.report@),
            applied: texts(self.applied@),
            clients: self.clients,
        }
    }
}

/// What comes of an event: the next state, and the effects to perform, in order.
#[verifier::ext_equal]
pub struct Turn {
    pub state: StateView,
    pub effects: Seq<EffectView>,
}

impl Turn {
    /// A turn whose effects come after some others.
    pub open spec fn after(self, effects: Seq<EffectView>) -> Turn {
        Turn { state: self.state, effects: effects + self.effects }
    }
}

/// Whether the effects that were waiting have been followed by those of a turn, and no others.
pub open spec fn followed(before: Seq<Effect>, turn: Turn, now: Seq<Effect>) -> bool {
    effect_views(now) == effect_views(before) + turn.effects
}

// ── the pieces of a turn ────────────────────────────────────────────────────────────────────────

/// The plugins that the entries name, in order.
pub open spec fn plugins_of(entries: Seq<Seq<char>>, home: Seq<char>) -> Seq<ManagedView> {
    entries.map_values(|entry: Seq<char>| plugin_of(entry, home))
}

/// The keybinds blocks of the plugins that have one, in order.
pub open spec fn blocks_of(plugins: Seq<ManagedView>) -> Seq<Seq<char>>
    decreases plugins.len(),
{
    if plugins.len() == 0 {
        Seq::empty()
    } else {
        match plugins.last().keybinds {
            Some(block) => blocks_of(plugins.drop_last()).push(block),
            None => blocks_of(plugins.drop_last()),
        }
    }
}

/// Applies a block to the live session only: the configuration file is not ours.
pub open spec fn apply_live(block: Seq<char>) -> EffectView {
    EffectView::Reconfigure { config: block, save: false }
}

/// Applies some blocks to the live session, in order.
pub open spec fn apply_all(blocks: Seq<Seq<char>>) -> Seq<EffectView> {
    blocks.map_values(|block: Seq<char>| apply_live(block))
}

/// The first plugin at or after `from` that has this name, or the number of plugins.
pub open spec fn plugin_index(plugins: Seq<ManagedView>, name: Seq<char>, from: int) -> int
    decreases plugins.len() - from,
{
    if from >= plugins.len() {
        plugins.len() as int
    } else if plugins[from].name == name {
        from
    } else {
        plugin_index(plugins, name, from + 1)
    }
}

/// The plugin that section number `k`, of this name, belongs to, or the number of plugins if it is
/// none's. The sync step prints one section for each plugin, in order, so it is plugin number `k`
/// if the name is that plugin's, whoever else bears it; if the name is not, it is the first plugin
/// that has it.
pub open spec fn section_owner(plugins: Seq<ManagedView>, name: Seq<char>, k: int) -> int {
    if 0 <= k < plugins.len() && trimmed(plugins[k].name) == name {
        k
    } else {
        plugin_index(plugins, name, 0)
    }
}

/// The plugins with what a check has found of a name. Plugins of one name that come from git share
/// one clone, so it holds of all of them; it does not hold of local ones.
pub open spec fn with_check(
    plugins: Seq<ManagedView>,
    name: Seq<char>,
    found: Seq<char>,
) -> Seq<ManagedView> {
    plugins.map_values(
        |m: ManagedView|
            if m.name == name && m.github is Some {
                ManagedView { check: Some(found), ..m }
            } else {
                m
            },
    )
}

/// The first session that is the current one, if there is one.
pub open spec fn current_session(sessions: Seq<SessionInfo>, from: int) -> Option<SessionInfo>
    decreases sessions.len() - from,
{
    if from >= sessions.len() {
        None
    } else if sessions[from].is_current_session {
        Some(sessions[from])
    } else {
        current_session(sessions, from + 1)
    }
}

/// The name and the body of a section of the sync step's output.
pub open spec fn section_parts(section: Seq<char>) -> (Seq<char>, Seq<char>) {
    match split_pair(section, '\n') {
        Some((name, body)) => (trimmed(name), body),
        None => (trimmed(section), Seq::empty()),
    }
}

/// The sections of the sync step's output: what follows each marker. What stands before the first
/// marker is no section.
pub open spec fn sections_of(out: Seq<char>) -> Seq<Seq<char>> {
    split_at_text(out, "===PLUGIN "@).drop_first()
}

/// What the report says of what has been done for a plugin. A run that has applied its blocks says
/// so of every plugin that has one; status says so of those whose block is among those `applied`.
pub open spec fn outcome_of(
    m: ManagedView,
    verb: Option<Verb>,
    applied: Seq<Seq<char>>,
) -> Seq<char> {
    if verb == Some(Verb::Check) {
        match m.check {
            Some(found) => if found == "same"@ {
                " — up to date"@
            } else if found == "diff"@ {
                " — UPDATE AVAILABLE (run update)"@
            } else {
                " — could not check"@
            },
            None => " — local, nothing to check"@,
        }
    } else if verb == Some(Verb::Status) {
        match m.keybinds {
            Some(block) if applied.contains(block) => " — keybinds applied"@,
            _ => ""@,
        }
    } else if m.keybinds is Some {
        " — keybinds applied"@
    } else if m.installed is Some {
        " — wasm installed"@
    } else {
        ""@
    }
}

/// The line of the report that is about a plugin.
pub open spec fn plugin_line_of(
    m: ManagedView,
    verb: Option<Verb>,
    applied: Seq<Seq<char>>,
) -> Seq<char> {
    "  "@ + m.note + " "@ + m.name + " ["@ + (match m.github {
        Some(repo) => repo,
        None => m.root,
    }) + "]"@ + outcome_of(m, verb, applied)
}

/// The lines of the report that are about the plugins.
pub open spec fn plugin_lines_of(
    plugins: Seq<ManagedView>,
    verb: Option<Verb>,
    applied: Seq<Seq<char>>,
) -> Seq<Seq<char>> {
    plugins.map_values(|m: ManagedView| plugin_line_of(m, verb, applied))
}

/// The first line of the report: what was done, and for which client.
pub open spec fn headline_of(verb: Option<Verb>, client_id: u16) -> Seq<char> {
    "lvim-zpm "@ + (match verb {
        Some(v) => v.spec_name(),
        None => "install"@,
    }) + " (client "@ + decimal(client_id as nat) + "):"@
}

/// What a command line is told about a verb that it has piped.
pub open spec fn acknowledgement_of(name: Seq<char>, permitted: bool, busy: bool) -> Seq<char> {
    "lvim-zpm: "@ + name + " "@ + (if !permitted {
        "waiting for permissions"@
    } else if busy {
        "queued behind the current run"@
    } else {
        "running"@
    }) + " — report: ~/.config/zellij/zpm/last-report (and the zellij log)\n"@
}

/// The report of a run that finds no plugin in the manifest.
pub open spec fn nothing_to_manage() -> Seq<char> {
    "lvim-zpm: nothing to manage — list plugins in "@ + replaced(MANIFEST@, "$HOME"@, "~"@)
        + " (\"owner/repo\" or \"file:/abs/dir\")"@
}

// ── the turns ───────────────────────────────────────────────────────────────────────────────────

impl StateView {
    /// The state before anything has happened.
    pub open spec fn initial() -> StateView {
        StateView {
            home: Seq::empty(),
            permitted: false,
            busy: false,
            verb: None,
            queued: None,
            plugins: Seq::empty(),
            report: Seq::empty(),
            applied: Seq::empty(),
            clients: None,
        }
    }

    /// What holds of every state that the manager gets into: a run knows its verb, runs only with
    /// the permissions, and nothing is queued unless there is a run to wait for.
    pub open spec fn wf(self) -> bool {
        &&& self.busy <==> self.verb is Some
        &&& self.busy ==> self.permitted
        &&& self.queued is Some ==> self.busy
    }

    /// Nothing comes of it.
    pub open spec fn ignore(self) -> Turn {
        Turn { state: self, effects: Seq::empty() }
    }

    /// Asks for the permissions and subscribes to the events; the state stays as it is.
    pub open spec fn load(self) -> Turn {
        Turn {
            state: self,
            effects: seq![
                EffectView::RequestPermission(
                    seq![
                        PermissionType::RunCommands,
                        PermissionType::Reconfigure,
                        PermissionType::ReadCliPipes,
                        PermissionType::ReadApplicationState,
                    ],
                ),
                EffectView::Subscribe(
                    seq![
                        EventType::RunCommandResult,
                        EventType::PermissionRequestResult,
                        EventType::SessionUpdate,
                    ],
                ),
            ],
        }
    }

    /// A run begins: it is busy with its verb, knows no plugins yet, and reads the manifest.
    pub open spec fn begin(self, verb: Verb) -> Turn {
        Turn {
            state: StateView {
                busy: true,
                verb: Some(verb),
                plugins: Seq::empty(),
                report: Seq::empty(),
                ..self
            },
            effects: seq![step_command("manifest"@, manifest_script_of())],
        }
    }

    /// A run ends: its report is logged and written down, and the queued verb, if any, begins.
    pub open spec fn done(self, report: Seq<char>) -> Turn {
        let idle = StateView { busy: false, verb: None, queued: None, ..self };
        let told = seq![
            EffectView::Log(report),
            step_command("report"@, report_script_of(report)),
        ];
        match self.queued {
            Some(verb) => idle.begin(verb).after(told),
            None => Turn { state: idle, effects: told },
        }
    }

    /// The text of the run's report.
    pub open spec fn report_text(self, client_id: u16) -> Seq<char> {
        joined(
            seq![headline_of(self.verb, client_id)] + plugin_lines_of(
                self.plugins,
                self.verb,
                self.applied,
            ) + self.report,
            "\n"@,
        )
    }

    /// A run ends with the report on its plugins.
    pub open spec fn finish(self, client_id: u16) -> Turn {
        self.done(self.report_text(client_id))
    }

    /// A run applies its plugins' blocks, remembers them, and ends.
    pub open spec fn apply(self, client_id: u16) -> Turn {
        let blocks = blocks_of(self.plugins);
        StateView { applied: blocks, ..self }.finish(client_id).after(apply_all(blocks))
    }

    /// The home directory and the manifest are known: the run ends if no plugin is listed, else
    /// the sync step starts.
    pub open spec fn on_manifest(self, out: Seq<char>) -> Turn {
        let (first, manifest) = match split_pair(out, '\n') {
            Some(parts) => parts,
            None => (Seq::empty(), out),
        };
        let home = trimmed(first);
        let entries = entries_of(lines_of(manifest));
        let known = StateView { home, ..self };
        if entries.len() == 0 {
            known.done(nothing_to_manage())
        } else {
            let verb = match self.verb {
                Some(verb) => verb,
                None => Verb::Status,
            };
            let found = plugins_of(entries, home);
            Turn {
                state: StateView { plugins: self.plugins + found, ..known },
                effects: seq![step_command("sync"@, sync_script_of(verb, found))],
            }
        }
    }

    /// The state after one line of the sync step's output: a failure goes to the report, and what
    /// a check has found goes to the plugins of that name that have a clone.
    pub open spec fn sync_line(self, line: Seq<char>) -> StateView {
        let reported = match without_prefix(line, "@@FAIL "@) {
            Some(fail) => StateView { report: self.report.push("  ✗ "@ + fail), ..self },
            None => self,
        };
        match without_prefix(line, "@@CHECK "@) {
            Some(check) => match split_pair(check, ' ') {
                Some((name, found)) => StateView {
                    plugins: with_check(self.plugins, name, trimmed(found)),
                    ..reported
                },
                None => reported,
            },
            None => reported,
        }
    }

    /// The state after some lines of the sync step's output.
    pub open spec fn sync_lines(self, lines: Seq<Seq<char>>) -> StateView
        decreases lines.len(),
    {
        if lines.len() == 0 {
            self
        } else {
            self.sync_lines(lines.drop_last()).sync_line(lines.last())
        }
    }

    /// The state after a section of the sync step's output: it is read by the plugin that it
    /// belongs to, if there is one.
    pub open spec fn sync_section(self, section: Seq<char>, k: int) -> StateView {
        let (name, body) = section_parts(section);
        let i = section_owner(self.plugins, name, k);
        if i < self.plugins.len() {
            StateView {
                plugins: self.plugins.update(i, self.plugins[i].read_section(body, self.home)),
                ..self
            }
        } else {
            self
        }
    }

    /// The state after the first sections of the sync step's output.
    pub open spec fn sync_sections(self, sections: Seq<Seq<char>>) -> StateView
        decreases sections.len(),
    {
        if sections.len() == 0 {
            self
        } else {
            self.sync_sections(sections.drop_last()).sync_section(
                sections.last(),
                sections.len() - 1,
            )
        }
    }

    /// The state after all of the sync step's output.
    pub open spec fn synced(self, out: Seq<char>) -> StateView {
        self.sync_lines(lines_of(out)).sync_sections(sections_of(out))
    }

    /// The sync step has ended: status and check end here, the other verbs start the grant step.
    pub open spec fn on_sync(self, out: Seq<char>, client_id: u16) -> Turn {
        let synced = self.synced(out);
        if self.verb == Some(Verb::Status) || self.verb == Some(Verb::Check) {
            synced.finish(client_id)
        } else {
            Turn {
                state: synced,
                effects: seq![step_command("grant"@, grant_script_of(synced.plugins))],
            }
        }
    }

    /// A step has ended.
    pub open spec fn on_step(self, step: Seq<char>, out: Seq<char>, client_id: u16) -> Turn {
        if step == "manifest"@ {
            self.on_manifest(out)
        } else if step == "sync"@ {
            self.on_sync(out, client_id)
        } else if step == "grant"@ {
            self.apply(client_id)
        } else {
            self.ignore()
        }
    }

    /// What comes of a session update, given the current session's number of clients.
    pub open spec fn on_clients(self, now: usize, client_id: u16) -> Turn {
        let counted = StateView { clients: Some(now), ..self };
        if !self.permitted {
            StateView { permitted: true, ..counted }.begin(Verb::Install)
        } else if !arrived(self.clients, now) {
            counted.ignore()
        } else if self.applied.len() > 0 {
            Turn {
                state: counted,
                effects: apply_all(self.applied) + seq![
                    EffectView::Log(
                        "lvim-zpm: client "@ + decimal(client_id as nat)
                            + " attached — keybinds re-applied"@,
                    ),
                ],
            }
        } else if !self.busy {
            counted.begin(Verb::Install)
        } else {
            counted.ignore()
        }
    }

    /// What comes of an event.
    pub open spec fn update(self, event: EventView, client_id: u16) -> Turn {
        match event {
            EventView::PermissionRequestResult(PermissionStatus::Granted) => if self.permitted {
                self.ignore()
            } else {
                StateView { permitted: true, ..self }.begin(Verb::Install)
            },
            EventView::PermissionRequestResult(PermissionStatus::Denied) => Turn {
                state: self,
                effects: seq![
                    EffectView::Log("lvim-zpm: permissions denied — the manager can do nothing"@),
                ],
            },
            EventView::RunCommandResult(exit, stdout, stderr, context) => self.on_step(
                step_of(context),
                lossy(stdout),
                client_id,
            ),
            EventView::SessionUpdate(sessions) => match current_session(sessions, 0) {
                Some(here) => self.on_clients(here.connected_clients, client_id),
                None => self.ignore(),
            },
            EventView::Other => self.ignore(),
        }
    }

    /// What comes of a piped message: a command line is answered, and the verb is begun if nothing
    /// stands in its way, or queued behind a run.
    pub open spec fn pipe(self, message: PipeMessageView) -> Turn {
        match Verb::spec_from_name(message.name) {
            None => self.ignore(),
            Some(verb) => {
                let told = match message.cli {
                    Some(id) => seq![
                        EffectView::CliPipeOutput {
                            id,
                            output: acknowledgement_of(message.name, self.permitted, self.busy),
                        },
                        EffectView::UnblockCliPipeInput { id },
                    ],
                    None => Seq::empty(),
                };
                if !self.permitted {
                    self.ignore().after(told)
                } else if self.busy {
                    StateView { queued: Some(verb), ..self }.ignore().after(told)
                } else {
                    self.begin(verb).after(told)
                }
            },
        }
    }
}

/// Whether the number of clients has risen.
pub open spec fn arrived(before: Option<usize>, now: usize) -> bool {
    before matches Some(b) && now > b
}

/// Whether a session update means that a client has come in: the count rose. The first update
/// only sets the baseline: the run that follows the grant applies for the client that is there.
///
/// An update that is stale can fake a rise; that costs one reconfiguration which changes nothing.
pub fn client_arrived(before: Option<usize>, now: usize) -> (r: bool)
    ensures
        r == arrived(before, now),
{
    match before {
        Some(before) => now > before,
        None => false,
    }
}

} // verus!
