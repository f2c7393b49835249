//! The manager's handlers. Each does what the turn of the same name in [`crate::state`] says, and
//! adds its effects to those that are already waiting.
use vstd::prelude::*;
use vstd::string::*;
use vstd::utf8::{decode_utf8, valid_utf8};

use crate::host::{
    effect_views, run_step, step_of, step_tag, Effect, Event, EventType, EventView,
    PermissionStatus, PermissionType, PipeMessage, PipeSource, SessionInfo,
};
use crate::laws::{
    law_every_input_keeps_the_invariant, law_sync_changes_plugins_and_failures_only, Input,
};
use crate::manifest::parse_user_manifest;
use crate::plugin::{plugin_views, Managed};
use crate::script::{
    grant_script, manifest_script, plugin_for, report_script, sync_script, MANIFEST,
};
use crate::state::{
    acknowledgement_of, apply_all, apply_live, blocks_of, client_arrived, current_session,
    followed, headline_of, nothing_to_manage, outcome_of, plugin_index, plugin_line_of,
    plugin_lines_of, plugins_of, section_owner, with_check, State, StateView,
};
use crate::text::{
    from_utf8_lossy, join, lines, number, replace, same, split, split_once, strip_prefix, texts,
    trim,
};
use crate::verb::Verb;

verus! {

// ── texts ───────────────────────────────────────────────────────────────────────────────────────

fn holds(blocks: &Vec<String>, block: &str) -> (r: bool)
    ensures
        r == texts(blocks@).contains(block@),
{
    let ghost all = texts(blocks@);
    let mut i: usize = 0;
    while i < blocks.len()
        invariant
            all == texts(blocks@),
            i <= blocks@.len(),
            forall|j: int| 0 <= j < i ==> all[j] != block@,
        decreases blocks@.len() - i,
    {
        assert(all[i as int] == blocks@[i as int]@);
        if same(blocks[i].as_str(), block) {
            return true;
        }
        i = i + 1;
    }
    false
}

fn outcome(m: &Managed, verb: Option<Verb>, applied: &Vec<String>) -> (r: &'static str)
    ensures
        r@ == outcome_of(m@, verb, texts(applied@)),
{
    match verb {
        Some(Verb::Check) => match &m.check {
            Some(found) => if same(found.as_str(), "same") {
                " — up to date"
            } else if same(found.as_str(), "diff") {
                " — UPDATE AVAILABLE (run update)"
            } else {
                " — could not check"
            },
            None => " — local, nothing to check",
        },
        Some(Verb::Status) => match &m.keybinds {
            Some(block) => if holds(applied, block.as_str()) {
                " — keybinds applied"
            } else {
                ""
            },
            None => "",
        },
        _ => if m.keybinds.is_some() {
            " — keybinds applied"
        } else if m.installed.is_some() {
            " — wasm installed"
        } else {
            ""
        },
    }
}

fn plugin_line(m: &Managed, verb: Option<Verb>, applied: &Vec<String>) -> (r: String)
    ensures
        r@ == plugin_line_of(m@, verb, texts(applied@)),
{
    let mut s = "  ".to_owned();
    s.append(m.note.as_str());
    s.append(" ");
    s.append(m.name.as_str());
    s.append(" [");
    match &m.github {
        Some(repo) => s.append(repo.as_str()),
        None => s.append(m.root.as_str()),
    }
    s.append("]");
    s.append(outcome(m, verb, applied));
    s
}

fn headline(verb: Option<Verb>, client_id: u16) -> (r: String)
    ensures
        r@ == headline_of(verb, client_id),
{
    let mut s = "lvim-zpm ".to_owned();
    match verb {
        Some(verb) => s.append(verb.name()),
        None => s.append("install"),
    }
    s.append(" (client ");
    s.append(number(client_id).as_str());
    s.append("):");
    s
}

fn acknowledgement(name: &str, permitted: bool, busy: bool) -> (r: String)
    ensures
        r@ == acknowledgement_of(name@, permitted, busy),
{
    let mut s = "lvim-zpm: ".to_owned();
    s.append(name);
    s.append(" ");
    if !permitted {
        s.append("waiting for permissions");
    } else if busy {
        s.append("queued behind the current run");
    } else {
        s.append("running");
    }
    s.append(" — report: ~/.config/zellij/zpm/last-report (and the zellij log)\n");
    s
}

fn nothing_found() -> (r: String)
    ensures
        r@ == nothing_to_manage(),
{
    proof {
        reveal_strlit("$HOME");
    }
    let mut s = "lvim-zpm: nothing to manage — list plugins in ".to_owned();
    s.append(replace(MANIFEST, "$HOME", "~").as_str());
    s.append(" (\"owner/repo\" or \"file:/abs/dir\")");
    s
}

// ── searching ───────────────────────────────────────────────────────────────────────────────────

fn position(plugins: &Vec<Managed>, name: &str) -> (i: usize)
    ensures
        i == plugin_index(plugin_views(plugins@), name@, 0),
        i <= plugins@.len(),
{
    let ghost all = plugin_views(plugins@);
    let mut i: usize = 0;
    while i < plugins.len() && !same(plugins[i].name.as_str(), name)
        invariant
            all == plugin_views(plugins@),
            i <= plugins@.len(),
            plugin_index(all, name@, 0) == plugin_index(all, name@, i as int),
        decreases plugins@.len() - i,
    {
        assert(all[i as int] == plugins@[i as int]@);
        i = i + 1;
    }
    assert(i < plugins@.len() ==> all[i as int] == plugins@[i as int]@);
    i
}

fn owner(plugins: &Vec<Managed>, name: &str, k: usize) -> (i: usize)
    ensures
        i == section_owner(plugin_views(plugins@), name@, k as int),
        i <= plugins@.len(),
{
    if k < plugins.len() && same(trim(plugins[k].name.as_str()), name) {
        k
    } else {
        position(plugins, name)
    }
}

fn current(sessions: &Vec<SessionInfo>) -> (r: Option<SessionInfo>)
    ensures
        r == current_session(sessions@, 0),
{
    let mut i: usize = 0;
    while i < sessions.len()
        invariant
            i <= sessions@.len(),
            current_session(sessions@, 0) == current_session(sessions@, i as int),
        decreases sessions@.len() - i,
    {
        if sessions[i].is_current_session {
            return Some(sessions[i]);
        }
        i = i + 1;
    }
    None
}

// ── effects ─────────────────────────────────────────────────────────────────────────────────────

fn push_effect(effects: &mut Vec<Effect>, effect: Effect)
    ensures
        effect_views(final(effects)@) == effect_views(old(effects)@) + seq![effect@],
{
    effects.push(effect);
    assert(effect_views(effects@) =~= effect_views(old(effects)@) + seq![effect@]);
}

fn reconfigure_all(blocks: &Vec<String>, effects: &mut Vec<Effect>)
    ensures
        effect_views(final(effects)@) == effect_views(old(effects)@) + apply_all(texts(blocks@)),
{
    let ghost all = texts(blocks@);
    let mut i: usize = 0;
    assert(effect_views(effects@) =~= effect_views(old(effects)@) + apply_all(all.take(0)));
    while i < blocks.len()
        invariant
            all == texts(blocks@),
            i <= blocks@.len(),
            effect_views(effects@) == effect_views(old(effects)@) + apply_all(
                all.take(i as int),
            ),
        decreases blocks@.len() - i,
    {
        push_effect(effects, Effect::Reconfigure { config: blocks[i].clone(), save: false });
        assert(apply_all(all.take(i + 1)) =~= apply_all(all.take(i as int)) + seq![
            apply_live(all[i as int]),
        ]);
        assert(effect_views(effects@) =~= effect_views(old(effects)@) + apply_all(
            all.take(i + 1),
        ));
        i = i + 1;
    }
    assert(all.take(i as int) =~= all);
}

// ── the handlers ────────────────────────────────────────────────────────────────────────────────

impl Default for State {
    fn default() -> (r: State)
        ensures
            r@ == StateView::initial(),
            r@.wf(),
    {
        let r = State {
            home: String::new(),
            permitted: false,
            busy: false,
            verb: None,
            queued: None,
            plugins: Vec::new(),
            report: Vec::new(),
            applied: Vec::new(),
            clients: None,
        };
        assert(r@ =~= StateView::initial());
        r
    }
}

impl State {
    /// Starts a run: forgets the last one's plugins and failures, and reads the user's manifest.
    pub fn begin(&mut self, verb: Verb, effects: &mut Vec<Effect>)
        ensures
            final(self)@ == old(self)@.begin(verb).state,
            followed(old(effects)@, old(self)@.begin(verb), final(effects)@),
            old(self)@.wf() && old(self)@.permitted ==> final(self)@.wf(),
    {
        self.busy = true;
        self.verb = Some(verb);
        self.plugins.clear();
        self.report.clear();
        run_step("manifest", manifest_script().as_str(), effects);
        assert(self@ =~= old(self)@.begin(verb).state);
    }

    /// Ends the run: logs the report, writes it to where the acknowledgement pointed, and starts
    /// whatever was queued meanwhile.
    pub fn done(&mut self, report: String, effects: &mut Vec<Effect>)
        ensures
            final(self)@ == old(self)@.done(report@).state,
            followed(old(effects)@, old(self)@.done(report@), final(effects)@),
            old(self)@.wf() ==> final(self)@.wf(),
    {
        let script = report_script(report.as_str());
        push_effect(effects, Effect::Log(report));
        run_step("report", script.as_str(), effects);
        self.busy = false;
        self.verb = None;
        if let Some(verb) = self.queued.take() {
            self.begin(verb, effects);
        }
        assert(effect_views(effects@) =~= effect_views(old(effects)@) + old(self)@.done(
            report@,
        ).effects);
    }

    /// Ends the run with its report: a line that says what was done and for which client, a line
    /// for each plugin, and what went wrong.
    pub fn finish(&mut self, client_id: u16, effects: &mut Vec<Effect>)
        ensures
            final(self)@ == old(self)@.finish(client_id).state,
            followed(old(effects)@, old(self)@.finish(client_id), final(effects)@),
            old(self)@.wf() ==> final(self)@.wf(),
    {
        let mut ls: Vec<String> = Vec::new();
        ls.push(headline(self.verb, client_id));
        let ghost head = seq![headline_of(self.verb, client_id)];
        let ghost all = plugin_views(self.plugins@);
        let ghost rows = plugin_lines_of(all, self.verb, texts(self.applied@));
        assert(texts(ls@) =~= head + rows.take(0));
        let mut i: usize = 0;
        while i < self.plugins.len()
            invariant
                self@ == old(self)@,
                all == plugin_views(self.plugins@),
                rows == plugin_lines_of(all, self.verb, texts(self.applied@)),
                i <= self.plugins@.len(),
                texts(ls@) == head + rows.take(i as int),
            decreases self.plugins@.len() - i,
        {
            let ghost before = texts(ls@);
            ls.push(plugin_line(&self.plugins[i], self.verb, &self.applied));
            assert(texts(ls@) =~= before.push(rows[i as int]));
            assert(texts(ls@) =~= head + rows.take(i + 1));
            i = i + 1;
        }
        assert(rows.take(i as int) =~= rows);
        let ghost told = texts(self.report@);
        let mut k: usize = 0;
        assert(texts(ls@) =~= head + rows + told.take(0));
        while k < self.report.len()
            invariant
                self@ == old(self)@,
                told == texts(self.report@),
                k <= self.report@.len(),
                texts(ls@) == head + rows + told.take(k as int),
            decreases self.report@.len() - k,
        {
            let ghost before = texts(ls@);
            ls.push(self.report[k].clone());
            assert(texts(ls@) =~= before.push(told[k as int]));
            assert(texts(ls@) =~= head + rows + told.take(k + 1));
            k = k + 1;
        }
        assert(told.take(k as int) =~= told);
        let report = join(&ls, "\n");
        self.done(report, effects);
    }

    /// The permissions are cached: applies every keybinds block to the live session. The plugins
    /// themselves launch lazily, at the first keybind that reaches for them.
    pub fn apply(&mut self, client_id: u16, effects: &mut Vec<Effect>)
        ensures
            final(self)@ == old(self)@.apply(client_id).state,
            followed(old(effects)@, old(self)@.apply(client_id), final(effects)@),
            old(self)@.wf() ==> final(self)@.wf(),
    {
        let ghost all = plugin_views(self.plugins@);
        let mut blocks: Vec<String> = Vec::new();
        let mut i: usize = 0;
        assert(texts(blocks@) =~= blocks_of(all.take(0)));
        while i < self.plugins.len()
            invariant
                self@ == old(self)@,
                all == plugin_views(self.plugins@),
                i <= self.plugins@.len(),
                texts(blocks@) == blocks_of(all.take(i as int)),
            decreases self.plugins@.len() - i,
        {
            assert(all.take(i + 1).drop_last() =~= all.take(i as int));
            assert(all.take(i + 1).last() == self.plugins@[i as int]@);
            let ghost before = texts(blocks@);
            if let Some(keybinds) = &self.plugins[i].keybinds {
                blocks.push(keybinds.clone());
                assert(texts(blocks@) =~= before.push(keybinds@));
            }
            i = i + 1;
        }
        assert(all.take(i as int) =~= all);
        reconfigure_all(&blocks, effects);
        self.applied = blocks;
        self.finish(client_id, effects);
        assert(effect_views(effects@) =~= effect_views(old(effects)@) + old(self)@.apply(
            client_id,
        ).effects);
    }

    /// The user's manifest is read: builds the list of plugins, and the script that brings every
    /// clone up to date and prints each plugin's own manifest, in one round trip to the host.
    pub fn on_manifest(&mut self, out: &str, effects: &mut Vec<Effect>)
        ensures
            final(self)@ == old(self)@.on_manifest(out@).state,
            followed(old(effects)@, old(self)@.on_manifest(out@), final(effects)@),
            old(self)@.wf() ==> final(self)@.wf(),
    {
        let entries = match split_once(out, '\n') {
            Some((first, manifest)) => {
                self.home = trim(first).to_owned();
                parse_user_manifest(manifest)
            },
            None => {
                self.home = trim("").to_owned();
                proof {
                    reveal_strlit("");
                    assert(""@ =~= Seq::<char>::empty());
                }
                parse_user_manifest(out)
            },
        };
        if entries.len() == 0 {
            self.done(nothing_found(), effects);
            return ;
        }
        let verb = match self.verb {
            Some(verb) => verb,
            None => Verb::Status,
        };
        let ghost home = self.home@;
        let ghost named = texts(entries@);
        let ghost found = plugins_of(named, home);
        let mut plugins: Vec<Managed> = Vec::new();
        let mut i: usize = 0;
        assert(plugin_views(plugins@) =~= found.take(0));
        while i < entries.len()
            invariant
                named == texts(entries@),
                home == self.home@,
                found == plugins_of(named, home),
                i <= entries@.len(),
                plugin_views(plugins@) == found.take(i as int),
            decreases entries@.len() - i,
        {
            let ghost before = plugin_views(plugins@);
            plugins.push(plugin_for(entries[i].as_str(), self.home.as_str()));
            assert(plugin_views(plugins@) =~= before.push(found[i as int]));
            assert(plugin_views(plugins@) =~= found.take(i + 1));
            i = i + 1;
        }
        assert(found.take(i as int) =~= found);
        let script = sync_script(verb, &plugins);
        self.plugins.append(&mut plugins);
        assert(self@.plugins =~= old(self)@.plugins + found);
        run_step("sync", script.as_str(), effects);
    }

    fn sync_line(&mut self, line: &str)
        ensures
            final(self)@ == old(self)@.sync_line(line@),
    {
        if let Some(fail) = strip_prefix(line, "@@FAIL ") {
            let mut told = "  ✗ ".to_owned();
            told.append(fail);
            let ghost text = told@;
            self.report.push(told);
            assert(self@.report =~= old(self)@.report.push(text));
        }
        if let Some(check) = strip_prefix(line, "@@CHECK ") {
            if let Some((name, found)) = split_once(check, ' ') {
                self.note_check(name, trim(found));
            }
        }
    }

    fn note_check(&mut self, name: &str, found: &str)
        ensures
            final(self)@ == (StateView {
                plugins: with_check(old(self)@.plugins, name@, found@),
                ..old(self)@
            }),
    {
        let ghost before = self@;
        let ghost after = with_check(before.plugins, name@, found@);
        let mut i: usize = 0;
        while i < self.plugins.len()
            invariant
                after == with_check(before.plugins, name@, found@),
                self@ == (StateView { plugins: self@.plugins, ..before }),
                self@.plugins.len() == before.plugins.len(),
                i <= self.plugins@.len(),
                forall|j: int| 0 <= j < i ==> self@.plugins[j] == after[j],
                forall|j: int|
                    i <= j < before.plugins.len() ==> self@.plugins[j] == before.plugins[j],
            decreases self.plugins@.len() - i,
        {
            let ghost now = self@.plugins;
            assert(now[i as int] == self.plugins@[i as int]@);
            if self.plugins[i].github.is_some() && same(self.plugins[i].name.as_str(), name) {
                self.plugins[i].check = Some(found.to_owned());
            }
            assert(self@.plugins =~= now.update(i as int, after[i as int]));
            i = i + 1;
        }
        assert(self@.plugins =~= after);
    }

    fn sync_section(&mut self, section: &str, k: usize)
        ensures
            final(self)@ == old(self)@.sync_section(section@, k as int),
    {
        let (name, body) = match split_once(section, '\n') {
            Some((name, body)) => (name, body),
            None => (section, ""),
        };
        proof {
            reveal_strlit("");
            assert(""@ =~= Seq::<char>::empty());
        }
        let i: usize = owner(&self.plugins, trim(name), k);
        if i < self.plugins.len() {
            let home = self.home.clone();
            self.plugins[i].read_section(body, home.as_str());
            assert(self@.plugins =~= old(self)@.sync_section(section@, k as int).plugins);
        }
    }

    /// The clones are in place and every plugin's manifest is printed: reads them all, then grants
    /// the permissions, in one more round trip, before anything gets loaded. Status and check only
    /// look: they end here.
    pub fn on_sync(&mut self, out: &str, _err: &str, client_id: u16, effects: &mut Vec<Effect>)
        ensures
            final(self)@ == old(self)@.on_sync(out@, client_id).state,
            followed(old(effects)@, old(self)@.on_sync(out@, client_id), final(effects)@),
            old(self)@.wf() ==> final(self)@.wf(),
    {
        proof {
            law_sync_changes_plugins_and_failures_only(self@, out@);
        }
        let ls = lines(out);
        let ghost all = texts(ls@);
        let mut i: usize = 0;
        while i < ls.len()
            invariant
                all == texts(ls@),
                i <= ls@.len(),
                self@ == old(self)@.sync_lines(all.take(i as int)),
                self@.verb == old(self)@.verb,
            decreases ls@.len() - i,
        {
            assert(all.take(i + 1).drop_last() =~= all.take(i as int));
            assert(all.take(i + 1).last() == ls@[i as int]@);
            self.sync_line(ls[i].as_str());
            i = i + 1;
        }
        assert(all.take(i as int) =~= all);
        let ghost lined = self@;
        proof {
            reveal_strlit("===PLUGIN ");
        }
        let pieces = split(out, "===PLUGIN ");
        let ghost parts = texts(pieces@).drop_first();
        let mut k: usize = 1;
        assert(parts.take(0) =~= Seq::empty());
        while k < pieces.len()
            invariant
                parts == texts(pieces@).drop_first(),
                1 <= k <= pieces@.len(),
                self@ == lined.sync_sections(parts.take(k - 1)),
                self@.verb == old(self)@.verb,
            decreases pieces@.len() - k,
        {
            assert(parts.take(k as int).drop_last() =~= parts.take(k - 1));
            assert(parts.take(k as int).last() == pieces@[k as int]@);
            self.sync_section(pieces[k].as_str(), k - 1);
            k = k + 1;
        }
        assert(parts.take(k - 1) =~= parts);
        match self.verb {
            Some(Verb::Status) | Some(Verb::Check) => self.finish(client_id, effects),
            _ => {
                run_step("grant", grant_script(&self.plugins).as_str(), effects);
            },
        }
    }

    /// A step's command has ended: goes on with the next one.
    pub fn on_step(
        &mut self,
        step: &str,
        _exit: i32,
        out: &str,
        err: &str,
        client_id: u16,
        effects: &mut Vec<Effect>,
    )
        ensures
            final(self)@ == old(self)@.on_step(step@, out@, client_id).state,
            followed(old(effects)@, old(self)@.on_step(step@, out@, client_id), final(effects)@),
            old(self)@.wf() ==> final(self)@.wf(),
    {
        if same(step, "manifest") {
            self.on_manifest(out, effects);
        } else if same(step, "sync") {
            self.on_sync(out, err, client_id, effects);
        } else if same(step, "grant") {
            self.apply(client_id, effects);
        } else {
            assert(effect_views(effects@) + Seq::empty() =~= effect_views(effects@));
        }
    }

    fn on_clients(&mut self, now: usize, client_id: u16, effects: &mut Vec<Effect>)
        ensures
            final(self)@ == old(self)@.on_clients(now, client_id).state,
            followed(old(effects)@, old(self)@.on_clients(now, client_id), final(effects)@),
    {
        let before = self.clients;
        self.clients = Some(now);
        if !self.permitted {
            // An instance that was loaded while nobody was attached never hears of the grant: the
            // answer is addressed to a client that is not there. Session updates are filtered by
            // one of the permissions that are asked for together, so their arrival is the grant.
            self.permitted = true;
            self.begin(Verb::Install, effects);
            return ;
        }
        assert(effect_views(effects@) + Seq::empty() =~= effect_views(effects@));
        if client_arrived(before, now) {
            if self.applied.len() > 0 {
                // Straight from memory, not a new run: whoever just arrived is about to press a
                // key, and reading a manifest takes a round trip to the host.
                reconfigure_all(&self.applied, effects);
                let mut line = "lvim-zpm: client ".to_owned();
                line.append(number(client_id).as_str());
                line.append(" attached — keybinds re-applied");
                push_effect(effects, Effect::Log(line));
                assert(effect_views(effects@) =~= effect_views(old(effects)@) + old(
                    self,
                )@.on_clients(now, client_id).effects);
            } else if !self.busy {
                self.begin(Verb::Install, effects);
            }
        }
    }

    /// Asks for the permissions and subscribes to the events that the manager needs.
    pub fn load(&mut self, effects: &mut Vec<Effect>)
        ensures
            final(self)@ == old(self)@.load().state,
            followed(old(effects)@, old(self)@.load(), final(effects)@),
    {
        let mut permissions: Vec<PermissionType> = Vec::new();
        permissions.push(PermissionType::RunCommands);
        permissions.push(PermissionType::Reconfigure);
        permissions.push(PermissionType::ReadCliPipes);
        permissions.push(PermissionType::ReadApplicationState);
        let mut events: Vec<EventType> = Vec::new();
        events.push(EventType::RunCommandResult);
        events.push(EventType::PermissionRequestResult);
        events.push(EventType::SessionUpdate);
        assert(permissions@ =~= seq![
            PermissionType::RunCommands,
            PermissionType::Reconfigure,
            PermissionType::ReadCliPipes,
            PermissionType::ReadApplicationState,
        ]);
        assert(events@ =~= seq![
            EventType::RunCommandResult,
            EventType::PermissionRequestResult,
            EventType::SessionUpdate,
        ]);
        push_effect(effects, Effect::RequestPermission(permissions));
        push_effect(effects, Effect::Subscribe(events));
        assert(effect_views(effects@) =~= effect_views(old(effects)@) + old(self)@.load().effects);
    }

    /// Takes in an event; `client_id` is the client that this instance answers for. What a command
    /// has printed is read as UTF-8, with a replacement character for what is not. Returns whether
    /// there is anything to render, which there never is.
    pub fn update(&mut self, event: Event, client_id: u16, effects: &mut Vec<Effect>) -> (render:
        bool)
        ensures
            !render,
            final(self)@ == old(self)@.update(event@, client_id).state,
            followed(old(effects)@, old(self)@.update(event@, client_id), final(effects)@),
            event@ matches EventView::RunCommandResult(_, stdout, _, context) ==> (valid_utf8(stdout)
                ==> ({
                let turn = old(self)@.on_step(step_of(context), decode_utf8(stdout), client_id);
                final(self)@ == turn.state && followed(old(effects)@, turn, final(effects)@)
            })),
            old(self)@.wf() ==> final(self)@.wf(),
    {
        assert(effect_views(effects@) + Seq::empty() =~= effect_views(effects@));
        proof {
            if self@.wf() {
                law_every_input_keeps_the_invariant(self@, Input::Event(event@, client_id));
            }
        }
        match event {
            Event::PermissionRequestResult(PermissionStatus::Granted) => {
                if !self.permitted {
                    self.permitted = true;
                    self.begin(Verb::Install, effects);
                }
            },
            Event::PermissionRequestResult(PermissionStatus::Denied) => {
                push_effect(
                    effects,
                    Effect::Log(
                        "lvim-zpm: permissions denied — the manager can do nothing".to_owned(),
                    ),
                );
            },
            Event::RunCommandResult(exit, stdout, stderr, context) => {
                let step = step_tag(&context);
                let out = from_utf8_lossy(&stdout);
                let err = from_utf8_lossy(&stderr);
                let code: i32 = match exit {
                    Some(code) => code,
                    None => -1,
                };
                self.on_step(step.as_str(), code, out.as_str(), err.as_str(), client_id, effects);
            },
            Event::SessionUpdate(sessions) => {
                if let Some(here) = current(&sessions) {
                    self.on_clients(here.connected_clients, client_id, effects);
                }
            },
            Event::Other => {},
        }
        false
    }

    /// Takes in a piped message. A command line is answered at once, whatever becomes of the
    /// verb: the host caps the time that it may wait, and no git clone fits in it. Returns whether
    /// there is anything to render, which there never is.
    pub fn pipe(&mut self, message: PipeMessage, effects: &mut Vec<Effect>) -> (render: bool)
        ensures
            !render,
            final(self)@ == old(self)@.pipe(message@).state,
            followed(old(effects)@, old(self)@.pipe(message@), final(effects)@),
            old(self)@.wf() ==> final(self)@.wf(),
    {
        assert(effect_views(effects@) + Seq::empty() =~= effect_views(effects@));
        let verb = match Verb::from_name(message.name.as_str()) {
            Some(verb) => verb,
            None => {
                return false;
            },
        };
        if let PipeSource::Cli(id) = &message.source {
            let output = acknowledgement(message.name.as_str(), self.permitted, self.busy);
            push_effect(effects, Effect::CliPipeOutput { id: id.clone(), output });
            push_effect(effects, Effect::UnblockCliPipeInput { id: id.clone() });
        }
        if self.permitted {
            if self.busy {
                self.queued = Some(verb);
            } else {
                self.begin(verb, effects);
            }
        }
        assert(effect_views(effects@) =~= effect_views(old(effects)@) + old(self)@.pipe(
            message@,
        ).effects);
        false
    }
}

} // verus!
