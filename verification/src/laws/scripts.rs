//! What the scripts of a run's steps do, plugin by plugin.
use vstd::prelude::*;
use vstd::string::*;

use crate::plugin::ManagedView;
use crate::plugin_laws::{law_the_report_gets_through_the_shell, shell_word};
use crate::script::{
    cache_script_of, grant_script_of, install_script_of, manifest_script_of, permission_lines_of,
    plugin_grant_of, plugin_grants_of, plugin_of, report_script_of, shell_quoted, shell_wasm_of,
    sync_script_of,
};
use crate::text::{last_piece, occurs_at, without_prefix};
use crate::text_laws::law_taking_off_a_prefix;
use crate::verb::Verb;

verus! {

// ── the manifest step ───────────────────────────────────────────────────────────────────────────

/// The manifest step makes the store, prints the home directory, and then the user's manifest.
pub proof fn law_the_manifest_step()
    ensures
        manifest_script_of() == "mkdir -p \"$HOME/.config/zellij/zpm/plugins\"; "@
            + "echo \"$HOME\"; "@ + "cat \"$HOME/.config/zellij/zpm.kdl\" 2>/dev/null"@,
{
    reveal_strlit("mkdir -p \"");
    reveal_strlit("$HOME/.config/zellij/zpm/plugins");
    reveal_strlit("\"; echo \"$HOME\"; cat \"");
    reveal_strlit("$HOME/.config/zellij/zpm.kdl");
    reveal_strlit("\" 2>/dev/null");
    reveal_strlit("mkdir -p \"$HOME/.config/zellij/zpm/plugins\"; ");
    reveal_strlit("echo \"$HOME\"; ");
    reveal_strlit("cat \"$HOME/.config/zellij/zpm.kdl\" 2>/dev/null");
    assert(manifest_script_of() =~= "mkdir -p \"$HOME/.config/zellij/zpm/plugins\"; "@
        + "echo \"$HOME\"; "@ + "cat \"$HOME/.config/zellij/zpm.kdl\" 2>/dev/null"@);
}

/// An entry `file:` and a path names a local plugin: it is called as the last part of the path, and
/// its directory is the path itself. Nothing else is known of it yet.
pub proof fn law_a_path_names_a_local_plugin(path: Seq<char>, home: Seq<char>)
    ensures
        plugin_of("file:"@ + path, home) == (ManagedView {
            name: last_piece(path, '/'),
            github: None,
            root: path,
            wasm: None,
            link: None,
            installed: None,
            permissions: Seq::empty(),
            keybinds: None,
            note: Seq::empty(),
            check: None,
        }),
{
    law_taking_off_a_prefix("file:"@ + path, "file:"@, path);
}

/// Any other entry names a repository: the plugin is called as the last part of its name, and its
/// directory is the one of that name in the store, below the home directory if that is known.
/// Nothing else is known of it yet.
pub proof fn law_a_repository_names_a_plugin(entry: Seq<char>, home: Seq<char>)
    requires
        !occurs_at(entry, "file:"@, 0),
    ensures
        plugin_of(entry, home) == (ManagedView {
            name: last_piece(entry, '/'),
            github: Some(entry),
            root: (if home.len() > 0 {
                home + "/.config/zellij/zpm/plugins/"@
            } else {
                "$HOME/.config/zellij/zpm/plugins"@ + "/"@
            }) + last_piece(entry, '/'),
            wasm: None,
            link: None,
            installed: None,
            permissions: Seq::empty(),
            keybinds: None,
            note: Seq::empty(),
            check: None,
        }),
{
}

// ── the sync step ───────────────────────────────────────────────────────────────────────────────

proof fn lemma_sync_add(verb: Verb, a: Seq<ManagedView>, b: Seq<ManagedView>)
    ensures
        sync_script_of(verb, a + b) == sync_script_of(verb, a) + sync_script_of(verb, b),
    decreases b.len(),
{
    if b.len() == 0 {
        assert(a + b =~= a);
        assert(sync_script_of(verb, a) + Seq::<char>::empty() =~= sync_script_of(verb, a));
    } else {
        lemma_sync_add(verb, a, b.drop_last());
        assert((a + b).drop_last() =~= a + b.drop_last());
        assert((a + b).last() == b.last());
        assert(sync_script_of(verb, a + b) =~= sync_script_of(verb, a) + sync_script_of(verb, b));
    }
}

/// The sync step takes the plugins one by one: what it does for a plugin is the same wherever the
/// plugin stands in the list, and whatever the others are.
pub proof fn law_every_plugin_is_synced(verb: Verb, plugins: Seq<ManagedView>, i: int)
    requires
        0 <= i < plugins.len(),
    ensures
        sync_script_of(verb, Seq::empty()) == Seq::<char>::empty(),
        sync_script_of(verb, plugins) == sync_script_of(verb, plugins.take(i)) + sync_script_of(
            verb,
            seq![plugins[i]],
        ) + sync_script_of(verb, plugins.skip(i + 1)),
{
    lemma_sync_add(verb, plugins.take(i), seq![plugins[i]]);
    lemma_sync_add(verb, plugins.take(i) + seq![plugins[i]], plugins.skip(i + 1));
    assert(plugins.take(i) + seq![plugins[i]] + plugins.skip(i + 1) =~= plugins);
}

/// The part of the sync step that prints a plugin's own manifest: the marker with the plugin's
/// name, and then the manifest that stands in its directory, or the mark that it has none.
pub open spec fn prints_manifest(script: Seq<char>, name: Seq<char>, dir: Seq<char>) -> bool {
    script == "echo \"===PLUGIN "@ + name + "\"\ncat \""@ + dir
        + "/zpm.kdl\" 2>/dev/null || echo @@NOMANIFEST@@\n"@
}

proof fn lemma_one(verb: Verb, m: ManagedView)
    ensures
        seq![m].drop_last() == Seq::<ManagedView>::empty(),
        sync_script_of(verb, Seq::empty()) == Seq::<char>::empty(),
{
    assert(seq![m].drop_last() =~= Seq::empty());
}

/// What the sync step does for a plugin that comes from git. Install clones it into the store
/// unless it is there; update does the same and then pulls; check fetches and says whether the
/// local and the remote hash are the same; status does none of it. Failures are told. All of them
/// then print the plugin's manifest.
pub proof fn law_the_sync_of_a_clone(m: ManagedView, repo: Seq<char>)
    requires
        m.github == Some(repo),
    ensures
        ({
            let dir = "$HOME/.config/zellij/zpm/plugins"@ + "/"@ + m.name;
            let clones = "if [ ! -d \""@ + dir
                + "/.git\" ]; then git clone --depth 1 \"https://github.com/"@ + repo + "\" \""@
                + dir + "\" >/dev/null 2>&1 || echo \"@@FAIL "@ + m.name
                + " clone failed\"; fi\n"@;
            let pulls = "git -C \""@ + dir
                + "\" pull --ff-only >/dev/null 2>&1 || echo \"@@FAIL "@ + m.name
                + " pull failed\"\n"@;
            let compares = "if [ -d \""@ + dir + "/.git\" ] && git -C \""@ + dir
                + "\" fetch -q origin >/dev/null 2>&1; then b=$(git -C \""@ + dir
                + "\" rev-parse --abbrev-ref HEAD 2>/dev/null); l=$(git -C \""@ + dir
                + "\" rev-parse HEAD 2>/dev/null); r=$(git -C \""@ + dir
                + "\" rev-parse \"origin/$b\" 2>/dev/null); if [ -n \"$l\" ] && [ \"$l\" = \"$r\" ]; then echo \"@@CHECK "@
                + m.name + " same\"; else echo \"@@CHECK "@ + m.name
                + " diff\"; fi; else echo \"@@CHECK "@ + m.name + " unknown\"; fi\n"@;
            &&& prints_manifest(sync_script_of(Verb::Status, seq![m]), m.name, dir)
            &&& sync_script_of(Verb::Install, seq![m]) == clones + sync_script_of(
                Verb::Status,
                seq![m],
            )
            &&& sync_script_of(Verb::Update, seq![m]) == clones + pulls + sync_script_of(
                Verb::Status,
                seq![m],
            )
            &&& sync_script_of(Verb::Check, seq![m]) == compares + sync_script_of(
                Verb::Status,
                seq![m],
            )
        }),
{
    lemma_one(Verb::Status, m);
    lemma_one(Verb::Install, m);
    lemma_one(Verb::Update, m);
    lemma_one(Verb::Check, m);
    let none = Seq::<char>::empty();
    assert(forall|x: Seq<char>| none + x =~= x);
    assert(forall|x: Seq<char>| x + none =~= x);
}

/// What the sync step does for a local plugin, whatever the verb: it prints the manifest in the
/// plugin's own directory.
pub proof fn law_the_sync_of_a_local_plugin(verb: Verb, m: ManagedView)
    requires
        m.github is None,
    ensures
        prints_manifest(sync_script_of(verb, seq![m]), m.name, m.root),
{
    lemma_one(verb, m);
    let none = Seq::<char>::empty();
    assert(forall|x: Seq<char>| none + x =~= x);
    assert(forall|x: Seq<char>| x + none =~= x);
}

// ── the grant step ──────────────────────────────────────────────────────────────────────────────

proof fn lemma_grants_add(a: Seq<ManagedView>, b: Seq<ManagedView>)
    ensures
        plugin_grants_of(a + b) == plugin_grants_of(a) + plugin_grants_of(b),
    decreases b.len(),
{
    if b.len() == 0 {
        assert(a + b =~= a);
        assert(plugin_grants_of(a) + Seq::<char>::empty() =~= plugin_grants_of(a));
    } else {
        lemma_grants_add(a, b.drop_last());
        assert((a + b).drop_last() =~= a + b.drop_last());
        assert((a + b).last() == b.last());
        assert(plugin_grants_of(a + b) =~= plugin_grants_of(a) + plugin_grants_of(b));
    }
}

/// What the grant step does for some plugins, once the cache's directory is there.
pub open spec fn grants(plugins: Seq<ManagedView>) -> Seq<char> {
    grant_script_of(plugins).skip("mkdir -p \"$HOME/.cache/zellij\"\n"@.len() as int)
}

proof fn lemma_grants(plugins: Seq<ManagedView>)
    ensures
        grants(plugins) == plugin_grants_of(plugins),
{
    assert(grants(plugins) =~= plugin_grants_of(plugins));
}

/// The grant step makes the cache's directory and then takes the plugins one by one: what it does
/// for a plugin is the same wherever the plugin stands in the list, and whatever the others are.
pub proof fn law_every_plugin_is_granted(plugins: Seq<ManagedView>, i: int)
    requires
        0 <= i < plugins.len(),
    ensures
        grant_script_of(plugins) == "mkdir -p \"$HOME/.cache/zellij\"\n"@ + grants(plugins),
        grants(Seq::empty()) == Seq::<char>::empty(),
        grants(plugins) == grants(plugins.take(i)) + grants(seq![plugins[i]]) + grants(
            plugins.skip(i + 1),
        ),
{
    lemma_grants(plugins);
    lemma_grants(plugins.take(i));
    lemma_grants(plugins.skip(i + 1));
    lemma_grants(seq![plugins[i]]);
    lemma_grants(Seq::empty());
    lemma_grants_add(plugins.take(i), seq![plugins[i]]);
    lemma_grants_add(plugins.take(i) + seq![plugins[i]], plugins.skip(i + 1));
    assert(plugins.take(i) + seq![plugins[i]] + plugins.skip(i + 1) =~= plugins);
}

/// A permission block has a line for each permission, in order.
pub proof fn law_every_permission_has_its_line(a: Seq<Seq<char>>, permission: Seq<char>)
    ensures
        permission_lines_of(Seq::empty()) == Seq::<char>::empty(),
        permission_lines_of(a.push(permission)) == permission_lines_of(a) + ("    "@ + permission
            + "\\n"@),
{
    assert(a.push(permission).drop_last() =~= a);
}

/// Whether a script rewrites a target's block in the permission cache: `awk` drops the block whose
/// first line is the target's, `printf` appends one with exactly these permissions, and the result
/// takes the cache's place. The shell is given the target's path as `word`.
pub open spec fn rewrites_block(
    script: Seq<char>,
    target: Seq<char>,
    word: Seq<char>,
    permissions: Seq<Seq<char>>,
) -> bool {
    let cache = "$HOME/.cache/zellij/permissions.kdl"@;
    script == "t=\""@ + cache + ".zpm.$$\"\nawk -v k='"@ + shell_quoted(
        "\""@ + target + "\" {"@,
    ) + "' 'BEGIN{s=0} index($0,k)==1{s=1;next} s{if($0~/^}/)s=0;next} {print}' \""@ + cache
        + "\" 2>/dev/null > \"$t\"\nprintf '\"%s\" {\\n"@ + permission_lines_of(permissions)
        + "}\\n' \""@ + word + "\" >> \"$t\"\nmv \"$t\" \""@ + cache + "\"\n"@
}

/// Whether a script copies a plugin's wasm to where layouts refer to it, if it has changed.
pub open spec fn installs_copy(script: Seq<char>, wasm: Seq<char>, copy: Seq<char>) -> bool {
    script == "mkdir -p \"$HOME/.config/zellij/plugins\"\ncmp -s \""@ + wasm + "\" \""@ + copy
        + "\" || cp \""@ + wasm + "\" \""@ + copy + "\"\n"@
}

/// What the grant step does for a plugin. One whose wasm is not known is left alone. One that has
/// an installed copy gets it refreshed. One that asks for permissions gets the block of its target
/// rewritten with exactly those, whatever else is known of it. A clone's own wasm is named by its
/// place in the store.
pub proof fn law_the_grant_of_a_plugin(m: ManagedView)
    ensures
        ({
            let all = grants(seq![m]);
            match m.wasm {
                None => all == Seq::<char>::empty(),
                Some(wasm) => {
                    let own = match without_prefix(wasm, m.root) {
                        Some(rest) => if m.github is Some {
                            "$HOME/.config/zellij/zpm/plugins"@ + "/"@ + m.name + rest
                        } else {
                            wasm
                        },
                        None => wasm,
                    };
                    exists|installs: Seq<char>, rewrites: Seq<char>|
                        {
                            &&& all == #[trigger] (installs + rewrites)
                            &&& match m.installed {
                                Some(copy) => installs_copy(installs, own, copy),
                                None => installs.len() == 0,
                            }
                            &&& if m.permissions.len() == 0 {
                                rewrites.len() == 0
                            } else {
                                match m.installed {
                                    Some(copy) => rewrites_block(
                                        rewrites,
                                        copy,
                                        copy,
                                        m.permissions,
                                    ),
                                    None => rewrites_block(rewrites, wasm, own, m.permissions),
                                }
                            }
                        }
                },
            }
        }),
{
    let one = seq![m];
    let none = Seq::<char>::empty();
    lemma_grants(one);
    assert(one.drop_last() =~= Seq::empty());
    assert(forall|x: Seq<char>| none + x =~= x);
    assert(forall|x: Seq<char>| x + none =~= x);
    let all = grants(one);
    assert(plugin_grants_of(Seq::empty()) =~= none);
    assert(one.last() == m);
    assert(all == plugin_grant_of(m));
    match m.wasm {
        Some(wasm) => {
            let own = shell_wasm_of(m, wasm);
            match m.installed {
                Some(copy) => {
                    let installs = install_script_of(own, copy);
                    let rewrites = all.skip(installs.len() as int);
                    assert(all =~= installs + rewrites);
                    if m.permissions.len() > 0 {
                        assert(rewrites =~= cache_script_of(copy, copy, m.permissions));
                    }
                    assert(installs_copy(installs, own, copy));
                },
                None => {
                    assert(all == none + all);
                },
            }
        },
        None => {},
    }
}

// ── the report step ─────────────────────────────────────────────────────────────────────────────

/// The report step writes the report, just as it is, to where the acknowledgement points: `printf`
/// is given one word, and that word stands for the report.
pub proof fn law_the_report_step(report: Seq<char>)
    ensures
        exists|word: Seq<char>|
            {
                &&& report_script_of(report)
                    == "mkdir -p \"$HOME/.config/zellij/zpm\"; printf '%s\\n' "@ + word
                    + " > \"$HOME/.config/zellij/zpm/last-report\""@
                &&& #[trigger] shell_word(word, false) == Some(report)
            },
{
    let word = "'"@ + shell_quoted(report) + "'"@;
    law_the_report_gets_through_the_shell(report);
    reveal_strlit("mkdir -p \"$HOME/.config/zellij/zpm\"; printf '%s\\n' '");
    reveal_strlit("mkdir -p \"$HOME/.config/zellij/zpm\"; printf '%s\\n' ");
    reveal_strlit("'");
    reveal_strlit("' > \"$HOME/.config/zellij/zpm/last-report\"");
    reveal_strlit(" > \"$HOME/.config/zellij/zpm/last-report\"");
    assert(report_script_of(report) =~= "mkdir -p \"$HOME/.config/zellij/zpm\"; printf '%s\\n' "@
        + word + " > \"$HOME/.config/zellij/zpm/last-report\""@);
    assert(shell_word(word, false) == Some(report));
}

} // verus!
