//! The contracts speak of views: they show all that there is, and nothing that there is not.
use vstd::prelude::*;
use vstd::string::*;

use crate::host::{
    effect_views, pair_texts, Effect, EffectView, Event, EventView, PipeMessage, PipeSource,
};
use crate::plugin::{plugin_views, Managed};
use crate::state::State;
use crate::text::{opt_text, texts};

verus! {

/// A list is shown item by item, in order, and so is what may be missing.
pub proof fn law_lists_are_shown_item_by_item(
    strings: Seq<String>,
    pairs: Seq<(String, String)>,
    plugins: Seq<Managed>,
    effects: Seq<Effect>,
    optional: Option<String>,
)
    ensures
        optional matches Some(text) ==> opt_text(optional) == Some(text@),
        optional is None ==> opt_text(optional) is None,
        texts(strings).len() == strings.len(),
        forall|i: int| 0 <= i < strings.len() ==> #[trigger] texts(strings)[i] == strings[i]@,
        pair_texts(pairs).len() == pairs.len(),
        forall|i: int|
            0 <= i < pairs.len() ==> #[trigger] pair_texts(pairs)[i] == (pairs[i].0@, pairs[i].1@),
        plugin_views(plugins).len() == plugins.len(),
        forall|i: int|
            0 <= i < plugins.len() ==> #[trigger] plugin_views(plugins)[i] == plugins[i]@,
        effect_views(effects).len() == effects.len(),
        forall|i: int|
            0 <= i < effects.len() ==> #[trigger] effect_views(effects)[i] == effects[i]@,
{
}

/// An effect is shown as the host will perform it.
pub proof fn law_effects_are_shown_as_they_are(effect: Effect)
    ensures
        match effect {
            Effect::RequestPermission(asked) => effect@ == EffectView::RequestPermission(asked@),
            Effect::Subscribe(events) => effect@ == EffectView::Subscribe(events@),
            Effect::RunCommand { command, context } => effect@ == (EffectView::RunCommand {
                command: texts(command@),
                context: pair_texts(context@),
            }),
            Effect::Reconfigure { config, save } => effect@ == (EffectView::Reconfigure {
                config: config@,
                save,
            }),
            Effect::CliPipeOutput { id, output } => effect@ == (EffectView::CliPipeOutput {
                id: id@,
                output: output@,
            }),
            Effect::UnblockCliPipeInput { id } => effect@ == (EffectView::UnblockCliPipeInput {
                id: id@,
            }),
            Effect::Log(line) => effect@ == EffectView::Log(line@),
        },
{
}

/// An event, and a piped message, is shown as the host has sent it.
pub proof fn law_what_comes_in_is_shown_as_it_is(event: Event, message: PipeMessage)
    ensures
        match event {
            Event::PermissionRequestResult(status) => event@ == EventView::PermissionRequestResult(
                status,
            ),
            Event::RunCommandResult(exit, stdout, stderr, context) => event@
                == EventView::RunCommandResult(exit, stdout@, stderr@, pair_texts(context@)),
            Event::SessionUpdate(sessions) => event@ == EventView::SessionUpdate(sessions@),
            Event::Other => event@ == EventView::Other,
        },
        message@.name == message.name@,
        message@.cli == (match message.source {
            PipeSource::Cli(id) => Some(id@),
            _ => None,
        }),
        message@.plugin == (match message.source {
            PipeSource::Plugin(id) => Some(id),
            _ => None,
        }),
{
}

/// A plugin, and the manager's state, is shown field by field.
pub proof fn law_fields_are_shown_as_they_are(m: Managed, s: State)
    ensures
        m@.name == m.name@,
        m@.github == opt_text(m.github),
        m@.root == m.root@,
        m@.wasm == opt_text(m.wasm),
        m@.link == opt_text(m.link),
        m@.installed == opt_text(m.installed),
        m@.permissions == texts(m.permissions@),
        m@.keybinds == opt_text(m.keybinds),
        m@.note == m.note@,
        m@.check == opt_text(m.check),
        s@.home == s.home@,
        s@.permitted == s.permitted,
        s@.busy == s.busy,
        s@.verb == s.verb,
        s@.queued == s.queued,
        s@.plugins == plugin_views(s.plugins@),
        s@.report == texts(s.report@),
        s@.applied == texts(s.applied@),
        s@.clients == s.clients,
{
}

} // verus!
