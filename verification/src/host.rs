//! What passes between the manager and its host: the events that the host sends, and the effects
//! that the manager asks for. The manager itself touches nothing.
use vstd::prelude::*;
use vstd::string::*;

use crate::text::{same, texts};

verus! {

/// A permission that the manager asks the host for.
#[derive(Clone, Copy, Debug, PartialEq, Eq, Structural)]
pub enum PermissionType {
    /// Git, reading manifests, and the grant step.
    RunCommands,
    /// Applying keybinds to the live session.
    Reconfigure,
    /// Answering the verbs.
    ReadCliPipes,
    /// Session updates: a client attached.
    ReadApplicationState,
}

/// The host's answer to a request for permissions.
#[derive(Clone, Copy, Debug, PartialEq, Eq, Structural)]
pub enum PermissionStatus {
    Granted,
    Denied,
}

/// A kind of event that the manager subscribes to.
#[derive(Clone, Copy, Debug, PartialEq, Eq, Structural)]
pub enum EventType {
    RunCommandResult,
    PermissionRequestResult,
    SessionUpdate,
}

/// What the manager reads of a session.
#[derive(Clone, Copy, Debug, PartialEq, Eq, Structural)]
pub struct SessionInfo {
    pub is_current_session: bool,
    pub connected_clients: usize,
}

/// Something that happened on the host.
#[derive(Debug)]
pub enum Event {
    PermissionRequestResult(PermissionStatus),
    /// The exit code, standard output, standard error and context of a command that has ended.
    RunCommandResult(Option<i32>, Vec<u8>, Vec<u8>, Vec<(String, String)>),
    SessionUpdate(Vec<SessionInfo>),
    /// Any other event.
    Other,
}

/// The contents of an [`Event`].
pub enum EventView {
    PermissionRequestResult(PermissionStatus),
    RunCommandResult(Option<i32>, Seq<u8>, Seq<u8>, Seq<(Seq<char>, Seq<char>)>),
    SessionUpdate(Seq<SessionInfo>),
    Other,
}

/// Who sent a pipe message.
#[derive(Debug)]
pub enum PipeSource {
    /// A command line, which waits on the pipe of this id.
    Cli(String),
    /// Another plugin.
    Plugin(u32),
    /// A keybind.
    Keybind,
}

/// A message that was piped to the manager.
#[derive(Debug)]
pub struct PipeMessage {
    pub source: PipeSource,
    pub name: String,
}

/// The contents of a [`PipeMessage`]: its name, and the pipe's id if a command line sent it, or
/// the plugin's if a plugin did.
pub struct PipeMessageView {
    pub cli: Option<Seq<char>>,
    pub plugin: Option<u32>,
    pub name: Seq<char>,
}

/// Something that the manager asks its host to do.
#[derive(Debug, PartialEq, Eq)]
pub enum Effect {
    RequestPermission(Vec<PermissionType>),
    Subscribe(Vec<EventType>),
    /// Run a command; its result comes back with the context.
    RunCommand { command: Vec<String>, context: Vec<(String, String)> },
    /// Merge a partial configuration into the live session; `save` also writes it to disk.
    Reconfigure { config: String, save: bool },
    CliPipeOutput { id: String, output: String },
    UnblockCliPipeInput { id: String },
    /// Write a line to the host's log.
    Log(String),
}

/// The contents of an [`Effect`].
pub enum EffectView {
    RequestPermission(Seq<PermissionType>),
    Subscribe(Seq<EventType>),
    RunCommand { command: Seq<Seq<char>>, context: Seq<(Seq<char>, Seq<char>)> },
    Reconfigure { config: Seq<char>, save: bool },
    CliPipeOutput { id: Seq<char>, output: Seq<char> },
    UnblockCliPipeInput { id: Seq<char> },
    Log(Seq<char>),
}

/// The views of a sequence of pairs of strings.
pub open spec fn pair_texts(v: Seq<(String, String)>) -> Seq<(Seq<char>, Seq<char>)> {
    v.map_values(|p: (String, String)| (p.0@, p.1@))
}

impl View for Event {
    type V = EventView;

    open spec fn view(&self) -> EventView {
        match self {
            Event::PermissionRequestResult(status) => EventView::PermissionRequestResult(*status),
            Event::RunCommandResult(exit, stdout, stderr, context) => EventView::RunCommandResult(
                *exit,
                stdout@,
                stderr@,
                pair_texts(context@),
            ),
            Event::SessionUpdate(sessions) => EventView::SessionUpdate(sessions@),
            Event::Other => EventView::Other,
        }
    }
}

impl View for PipeMessage {
    type V = PipeMessageView;

    open spec fn view(&self) -> PipeMessageView {
        PipeMessageView {
            cli: match self.source {
                PipeSource::Cli(id) => Some(id@),
                _ => None,
            },
            plugin: match self.source {
                PipeSource::Plugin(id) => Some(id),
                _ => None,
            },
            name: self.name@,
        }
    }
}

impl View for Effect {
    type V = EffectView;

    open spec fn view(&self) -> EffectView {
        match self {
            Effect::RequestPermission(permissions) => EffectView::RequestPermission(permissions@),
            Effect::Subscribe(events) => EffectView::Subscribe(events@),
            Effect::RunCommand { command, context } => EffectView::RunCommand {
                command: texts(command@),
                context: pair_texts(context@),
            },
            Effect::Reconfigure { config, save } => EffectView::Reconfigure {
                config: config@,
                save: *save,
            },
            Effect::CliPipeOutput { id, output } => EffectView::CliPipeOutput {
                id: id@,
                output: output@,
            },
            Effect::UnblockCliPipeInput { id } => EffectView::UnblockCliPipeInput { id: id@ },
            Effect::Log(line) => EffectView::Log(line@),
        }
    }
}

/// The views of a sequence of effects.
pub open spec fn effect_views(v: Seq<Effect>) -> Seq<EffectView> {
    v.map_values(|e: Effect| e@)
}

/// One asynchronous step on the host: a shell script whose result comes back tagged with `step`.
pub open spec fn step_command(step: Seq<char>, script: Seq<char>) -> EffectView {
    EffectView::RunCommand {
        command: seq!["sh"@, "-c"@, script],
        context: seq![("zpm_step"@, step)],
    }
}

/// The value under `key` in a context, or the empty text if there is none.
pub open spec fn context_value(
    context: Seq<(Seq<char>, Seq<char>)>,
    key: Seq<char>,
    from: int,
) -> Seq<char>
    decreases context.len() - from,
{
    if from >= context.len() {
        Seq::empty()
    } else if context[from].0 == key {
        context[from].1
    } else {
        context_value(context, key, from + 1)
    }
}

/// The tag under which a command's result comes back.
pub open spec fn step_of(context: Seq<(Seq<char>, Seq<char>)>) -> Seq<char> {
    context_value(context, "zpm_step"@, 0)
}

/// Asks the host to run `script`, its result tagged with `step`.
pub fn run_step(step: &str, script: &str, out: &mut Vec<Effect>)
    ensures
        effect_views(final(out)@) == effect_views(old(out)@) + seq![step_command(step@, script@)],
{
    let mut command: Vec<String> = Vec::new();
    command.push("sh".to_owned());
    command.push("-c".to_owned());
    command.push(script.to_owned());
    let mut context: Vec<(String, String)> = Vec::new();
    context.push(("zpm_step".to_owned(), step.to_owned()));
    assert(texts(command@) =~= seq!["sh"@, "-c"@, script@]);
    assert(pair_texts(context@) =~= seq![("zpm_step"@, step@)]);
    out.push(Effect::RunCommand { command, context });
    assert(effect_views(out@) =~= effect_views(old(out)@) + seq![step_command(step@, script@)]);
}

/// The step that a command's result belongs to; empty if its context has no tag.
pub fn step_tag(context: &Vec<(String, String)>) -> (r: String)
    ensures
        r@ == step_of(pair_texts(context@)),
{
    let ghost all = pair_texts(context@);
    let mut i: usize = 0;
    while i < context.len()
        invariant
            all == pair_texts(context@),
            i <= context@.len(),
            step_of(all) == context_value(all, "zpm_step"@, i as int),
        decreases context@.len() - i,
    {
        assert(all[i as int] == (context@[i as int].0@, context@[i as int].1@));
        if same(context[i].0.as_str(), "zpm_step") {
            return context[i].1.clone();
        }
        i = i + 1;
    }
    String::new()
}

/// The result of a step's command is routed back to that step: the tag it is sent with is the tag
/// that is read from its context.
pub proof fn law_result_is_routed_to_its_step(step: Seq<char>, script: Seq<char>)
    ensures
        step_command(step, script) matches EffectView::RunCommand { command, context } && step_of(
            context,
        ) == step,
{
    reveal_with_fuel(context_value, 2);
}

} // verus!
