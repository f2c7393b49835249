//! What a report says.
use vstd::prelude::*;
use vstd::string::*;

use crate::host::{step_command, EffectView};
use crate::plugin::ManagedView;
use crate::script::report_script_of;
use crate::state::{headline_of, plugin_lines_of, StateView};
use crate::text::{decimal, joined};
use crate::verb::Verb;

verus! {

/// How the line about a plugin starts: what is noted of the plugin, its name, and its source, which
/// is the repository, or the directory of a local plugin.
pub open spec fn line_start(m: ManagedView) -> Seq<char> {
    "  "@ + m.note + " "@ + m.name + " ["@ + (if m.github is Some {
        m.github->0
    } else {
        m.root
    }) + "]"@
}

/// Whether a line says of a plugin what a check has found: the same hash, another one, or neither
/// if it could not tell; a plugin that was not checked is local.
pub open spec fn tells_check(line: Seq<char>, m: ManagedView) -> bool {
    let start = line_start(m);
    &&& m.check == Some("same"@) ==> line == start + " — up to date"@
    &&& m.check == Some("diff"@) ==> line == start + " — UPDATE AVAILABLE (run update)"@
    &&& m.check is Some && m.check != Some("same"@) && m.check != Some("diff"@) ==> line == start
        + " — could not check"@
    &&& m.check is None ==> line == start + " — local, nothing to check"@
}

/// Whether a line says of a plugin whether its block is among those that are applied.
pub open spec fn tells_status(line: Seq<char>, m: ManagedView, applied: Seq<Seq<char>>) -> bool {
    let start = line_start(m);
    &&& m.keybinds is Some && applied.contains(m.keybinds->0) ==> line == start
        + " — keybinds applied"@
    &&& !(m.keybinds is Some && applied.contains(m.keybinds->0)) ==> line == start
}

/// Whether a line says of a plugin what a run that installs or updates has done for it.
pub open spec fn tells_run(line: Seq<char>, m: ManagedView) -> bool {
    let start = line_start(m);
    &&& m.keybinds is Some ==> line == start + " — keybinds applied"@
    &&& m.keybinds is None && m.installed is Some ==> line == start + " — wasm installed"@
    &&& m.keybinds is None && m.installed is None ==> line == start
}

/// Whether some lines are those of a run's report: first what was done and for which client, then a
/// line for every plugin, in order, and then every failure, in order.
pub open spec fn is_report(lines: Seq<Seq<char>>, s: StateView, client_id: u16) -> bool {
    let n = s.plugins.len();
    &&& lines.len() == 1 + n + s.report.len()
    &&& lines[0] == "lvim-zpm "@ + (match s.verb {
        Some(Verb::Status) => "status"@,
        Some(Verb::Check) => "check"@,
        Some(Verb::Update) => "update"@,
        _ => "install"@,
    }) + " (client "@ + decimal(client_id as nat) + "):"@
    &&& forall|i: int|
        #![trigger s.plugins[i]]
        0 <= i < n ==> (if s.verb == Some(Verb::Check) {
            tells_check(lines[1 + i], s.plugins[i])
        } else if s.verb == Some(Verb::Status) {
            tells_status(lines[1 + i], s.plugins[i], s.applied)
        } else {
            tells_run(lines[1 + i], s.plugins[i])
        })
    &&& forall|j: int|
        #![trigger s.report[j]]
        0 <= j < s.report.len() ==> lines[1 + n + j] == s.report[j]
}

/// The report of a run that ends is logged, and the same report is written down. It tells of every
/// plugin of the run, wherever it stands in the list, and of every failure.
pub proof fn law_the_report_tells_all(s: StateView, client_id: u16)
    ensures
        exists|lines: Seq<Seq<char>>|
            {
                &&& #[trigger] is_report(lines, s, client_id)
                &&& s.finish(client_id).effects[0] == EffectView::Log(joined(lines, "\n"@))
                &&& s.finish(client_id).effects[1] == step_command(
                    "report"@,
                    report_script_of(joined(lines, "\n"@)),
                )
                &&& s.finish(client_id) == s.done(joined(lines, "\n"@))
            },
{
    let rows = plugin_lines_of(s.plugins, s.verb, s.applied);
    let lines = seq![headline_of(s.verb, client_id)] + rows + s.report;
    let n = s.plugins.len();
    reveal_strlit("");
    assert(forall|x: Seq<char>| x + ""@ =~= x);
    lemma_found();
    assert forall|i: int|
        #![trigger s.plugins[i]]
        0 <= i < n implies (if s.verb == Some(Verb::Check) {
        tells_check(lines[1 + i], s.plugins[i])
    } else if s.verb == Some(Verb::Status) {
        tells_status(lines[1 + i], s.plugins[i], s.applied)
    } else {
        tells_run(lines[1 + i], s.plugins[i])
    }) by {
        assert(lines[1 + i] == rows[i]);
    }
    assert(is_report(lines, s, client_id));
}

proof fn lemma_found()
    ensures
        "same"@ != "diff"@,
{
    reveal_strlit("same");
    reveal_strlit("diff");
    assert("same"@[0] == 's' && "diff"@[0] == 'd');
}

} // verus!
