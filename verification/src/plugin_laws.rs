//! What holds of the plugins and of the scripts that are run for them.
use vstd::prelude::*;
use vstd::string::*;

use crate::manifest::{keybinds_of, quoted_of, uncommented_of};
use crate::plugin::ManagedView;
use crate::script::{
    cache_key_of, cache_script_of, git_script_of, install_script_of, plugin_grant_of, plugin_of,
    pull_script_of, report_script_of, shell_quoted, shell_root_of, shell_wasm_of, show_script_of,
    sync_script_of, STORE,
};
use crate::text::{
    contains, find_text, first_word, joined, lemma_find_text, lines_of, occurs_at, replaced,
    split_at_text, split_from, without_prefix,
};
use crate::text_laws::{
    law_joining_undoes_splitting, law_pieces_hold_no_separator, law_replacing_leaves_none,
    lemma_joined_front,
};
use crate::verb::Verb;

verus! {

/// Reading a manifest's lines sets the wasm, the link and the permissions, and nothing else.
pub proof fn lemma_read_lines_keep_rest(m: ManagedView, lines: Seq<Seq<char>>)
    ensures
        m.read_lines(lines) == (ManagedView {
            wasm: m.read_lines(lines).wasm,
            link: m.read_lines(lines).link,
            permissions: m.read_lines(lines).permissions,
            ..m
        }),
    decreases lines.len(),
{
    if lines.len() > 0 {
        lemma_read_lines_keep_rest(m, lines.drop_last());
    }
}

// ── what a manifest says ────────────────────────────────────────────────────────────────────────

/// Whether a line of a manifest is about a key: the key is its first word, outside of a comment.
pub open spec fn is_about(line: Seq<char>, key: Seq<char>) -> bool {
    first_word(uncommented_of(line)) == Some(key)
}

/// The strings that a line of a manifest quotes, outside of a comment.
pub open spec fn says(line: Seq<char>) -> Seq<Seq<char>> {
    quoted_of(uncommented_of(line))
}

proof fn lemma_keys()
    ensures
        "wasm"@ != "link"@,
        "wasm"@ != "permissions"@,
        "link"@ != "permissions"@,
{
    reveal_strlit("wasm");
    reveal_strlit("link");
    reveal_strlit("permissions");
    assert("wasm"@[0] == 'w' && "link"@[0] == 'l' && "permissions"@[0] == 'p');
}

proof fn lemma_wasm_stays(m: ManagedView, before: Seq<Seq<char>>, after: Seq<Seq<char>>)
    requires
        forall|i: int|
            0 <= i < after.len() ==> !(is_about(#[trigger] after[i], "wasm"@) && says(
                after[i],
            ).len() > 0),
    ensures
        m.read_lines(before + after).wasm == m.read_lines(before).wasm,
    decreases after.len(),
{
    lemma_keys();
    let all = before + after;
    if after.len() == 0 {
        assert(all =~= before);
    } else {
        let fewer = after.drop_last();
        assert forall|i: int| 0 <= i < fewer.len() implies !(is_about(#[trigger] fewer[i], "wasm"@)
            && says(fewer[i]).len() > 0) by {
            assert(fewer[i] == after[i]);
        }
        lemma_wasm_stays(m, before, fewer);
        assert(all.drop_last() =~= before + fewer);
        assert(all.last() == after[after.len() - 1]);
    }
}

/// A manifest names the wasm on a line of its own, relative to the plugin's directory. The last
/// such line counts, wherever it stands; without one the wasm stays what it was.
pub proof fn law_a_manifest_names_the_wasm(
    m: ManagedView,
    text: Seq<char>,
    home: Seq<char>,
    before: Seq<Seq<char>>,
    line: Seq<char>,
    after: Seq<Seq<char>>,
)
    requires
        forall|i: int|
            0 <= i < after.len() ==> !(is_about(#[trigger] after[i], "wasm"@) && says(
                after[i],
            ).len() > 0),
    ensures
        lines_of(text) == after ==> m.read_manifest(text, home).wasm == m.wasm,
        lines_of(text) == before + seq![line] + after && is_about(line, "wasm"@) && says(line).len()
            > 0 ==> m.read_manifest(text, home).wasm == Some(m.root + "/"@ + says(line)[0]),
{
    lemma_keys();
    lemma_wasm_stays(m, Seq::empty(), after);
    assert(Seq::<Seq<char>>::empty() + after =~= after);
    let upto = before + seq![line];
    lemma_wasm_stays(m, upto, after);
    assert(upto.drop_last() =~= before);
    lemma_read_lines_keep_rest(m, before);
}

proof fn lemma_link_stays(m: ManagedView, before: Seq<Seq<char>>, after: Seq<Seq<char>>)
    requires
        forall|i: int| 0 <= i < after.len() ==> !is_about(#[trigger] after[i], "link"@),
    ensures
        m.read_lines(before + after).link == m.read_lines(before).link,
    decreases after.len(),
{
    lemma_keys();
    let all = before + after;
    if after.len() == 0 {
        assert(all =~= before);
    } else {
        let fewer = after.drop_last();
        assert forall|i: int| 0 <= i < fewer.len() implies !is_about(
            #[trigger] fewer[i],
            "link"@,
        ) by {
            assert(fewer[i] == after[i]);
        }
        lemma_link_stays(m, before, fewer);
        assert(all.drop_last() =~= before + fewer);
        assert(all.last() == after[after.len() - 1]);
    }
}

/// A manifest names the link on a line of its own. The last such line counts, wherever it stands,
/// and takes the link back if it quotes nothing; without one the link stays what it was.
pub proof fn law_a_manifest_names_the_link(
    m: ManagedView,
    text: Seq<char>,
    home: Seq<char>,
    before: Seq<Seq<char>>,
    line: Seq<char>,
    after: Seq<Seq<char>>,
)
    requires
        forall|i: int| 0 <= i < after.len() ==> !is_about(#[trigger] after[i], "link"@),
    ensures
        lines_of(text) == after ==> m.read_manifest(text, home).link == m.link,
        lines_of(text) == before + seq![line] + after && is_about(line, "link"@) ==> (
        m.read_manifest(text, home).link == if says(line).len() > 0 {
            Some(says(line)[0])
        } else {
            None
        }),
{
    lemma_keys();
    lemma_link_stays(m, Seq::empty(), after);
    assert(Seq::<Seq<char>>::empty() + after =~= after);
    let upto = before + seq![line];
    lemma_link_stays(m, upto, after);
    assert(upto.drop_last() =~= before);
}

proof fn lemma_permissions_stay(m: ManagedView, before: Seq<Seq<char>>, after: Seq<Seq<char>>)
    requires
        forall|i: int| 0 <= i < after.len() ==> !is_about(#[trigger] after[i], "permissions"@),
    ensures
        m.read_lines(before + after).permissions == m.read_lines(before).permissions,
    decreases after.len(),
{
    lemma_keys();
    let all = before + after;
    if after.len() == 0 {
        assert(all =~= before);
    } else {
        let fewer = after.drop_last();
        assert forall|i: int| 0 <= i < fewer.len() implies !is_about(
            #[trigger] fewer[i],
            "permissions"@,
        ) by {
            assert(fewer[i] == after[i]);
        }
        lemma_permissions_stay(m, before, fewer);
        assert(all.drop_last() =~= before + fewer);
        assert(all.last() == after[after.len() - 1]);
    }
}

/// A manifest asks for permissions on a line of its own: all that it quotes, in order. The last
/// such line counts, wherever it stands; without one the permissions stay what they were.
pub proof fn law_a_manifest_asks_for_permissions(
    m: ManagedView,
    text: Seq<char>,
    home: Seq<char>,
    before: Seq<Seq<char>>,
    line: Seq<char>,
    after: Seq<Seq<char>>,
)
    requires
        forall|i: int| 0 <= i < after.len() ==> !is_about(#[trigger] after[i], "permissions"@),
    ensures
        lines_of(text) == after ==> m.read_manifest(text, home).permissions == m.permissions,
        lines_of(text) == before + seq![line] + after && is_about(line, "permissions"@)
            ==> m.read_manifest(text, home).permissions == says(line),
{
    lemma_keys();
    lemma_permissions_stay(m, Seq::empty(), after);
    assert(Seq::<Seq<char>>::empty() + after =~= after);
    let upto = before + seq![line];
    lemma_permissions_stay(m, upto, after);
    assert(upto.drop_last() =~= before);
}

/// Of a plugin that is new only the source is known.
pub proof fn law_a_new_plugin_is_blank(name: Seq<char>, github: Option<Seq<char>>, root: Seq<char>)
    ensures
        ({
            let m = ManagedView::fresh(name, github, root);
            &&& m.name == name
            &&& m.github == github
            &&& m.root == root
            &&& m.wasm is None
            &&& m.link is None
            &&& m.installed is None
            &&& m.permissions.len() == 0
            &&& m.keybinds is None
            &&& m.note.len() == 0
            &&& m.check is None
        }),
{
}

/// The target of a plugin is its installed copy, and its own wasm only if there is no copy.
pub proof fn law_the_installed_copy_comes_first(m: ManagedView)
    ensures
        m.installed is Some ==> m.target() == m.installed,
        m.installed is None ==> m.target() == m.wasm,
{
}

/// What follows from the wasm and the link that a manifest leaves a plugin with: it is installed
/// under the link, if it has both, and its keybinds name the installed copy, or else its own wasm.
/// A manifest without a block, or a plugin without a wasm, leaves the keybinds as they were. Where
/// the plugin comes from, and what is noted of it, no manifest changes.
pub proof fn law_what_a_manifest_makes_of_a_plugin(
    m: ManagedView,
    text: Seq<char>,
    home: Seq<char>,
)
    ensures
        ({
            let read = m.read_manifest(text, home);
            &&& read.installed == (if read.link is Some && read.wasm is Some {
                Some(home + "/.config/zellij/plugins/"@ + read.link->0)
            } else {
                m.installed
            })
            &&& read.target() == (if read.installed is Some {
                read.installed
            } else {
                read.wasm
            })
            &&& read.keybinds == (if keybinds_of(text) is Some && (read.installed is Some
                || read.wasm is Some) {
                Some(
                    replaced(
                        keybinds_of(text)->0,
                        "{{wasm}}"@,
                        "file:"@ + (if read.installed is Some {
                            read.installed->0
                        } else {
                            read.wasm->0
                        }),
                    ),
                )
            } else {
                m.keybinds
            })
            &&& read.name == m.name
            &&& read.github == m.github
            &&& read.root == m.root
            &&& read.note == m.note
            &&& read.check == m.check
        }),
{
    lemma_read_lines_keep_rest(m, lines_of(text));
}

/// What a section of the sync step's output makes of a plugin: its manifest is read, and the report
/// will say whether it has keybinds, is a layout's plugin, has neither, or names no wasm at all.
/// If there is no manifest, that is all that is noted.
pub proof fn law_what_a_section_makes_of_a_plugin(m: ManagedView, body: Seq<char>, home: Seq<char>)
    ensures
        ({
            let after = m.read_section(body, home);
            let read = m.read_manifest(body, home);
            if contains(body, "@@NOMANIFEST@@"@) {
                after == (ManagedView { note: "✗ no zpm.kdl manifest"@, ..m })
            } else {
                &&& after == (ManagedView { note: after.note, ..read })
                &&& read.wasm is None ==> after.note == "✗ manifest names no wasm"@
                &&& read.wasm is Some && read.keybinds is Some ==> after.note == "✓"@
                &&& read.wasm is Some && read.keybinds is None && read.link is Some ==> after.note
                    == "✓ (layout plugin)"@
                &&& read.wasm is Some && read.keybinds is None && read.link is None ==> after.note
                    == "✓ (no keybinds)"@
            }
        }),
{
}

// ── where things point ──────────────────────────────────────────────────────────────────────────

/// With a `link`, everything points at the installed copy: it is the target, the keybinds name its
/// URL, and the grant step installs it and grants it the permissions.
pub proof fn law_a_link_points_at_the_installed_copy(
    m: ManagedView,
    text: Seq<char>,
    home: Seq<char>,
)
    requires
        m.read_lines(lines_of(text)).link is Some,
        m.read_lines(lines_of(text)).wasm is Some,
    ensures
        ({
            let read = m.read_manifest(text, home);
            let copy = home + "/.config/zellij/plugins/"@ + read.link->0;
            &&& read.link == m.read_lines(lines_of(text)).link
            &&& read.installed == Some(copy)
            &&& read.target() == Some(copy)
            &&& keybinds_of(text) matches Some(block) ==> read.keybinds == Some(
                replaced(block, "{{wasm}}"@, "file:"@ + copy),
            )
            &&& plugin_grant_of(read) == install_script_of(
                shell_wasm_of(read, read.wasm->0),
                copy,
            ) + (if read.permissions.len() == 0 {
                Seq::empty()
            } else {
                cache_script_of(copy, copy, read.permissions)
            })
        }),
{
}

/// Without a `link`, a plugin that has just been listed points at its own wasm, in its own
/// directory.
pub proof fn law_without_a_link_the_own_wasm_is_the_target(
    m: ManagedView,
    text: Seq<char>,
    home: Seq<char>,
)
    requires
        m.installed is None,
        m.read_lines(lines_of(text)).link is None,
    ensures
        ({
            let read = m.read_manifest(text, home);
            &&& read.installed is None
            &&& read.target() == read.wasm
            &&& keybinds_of(text) is Some && read.wasm is Some ==> read.keybinds == Some(
                replaced(keybinds_of(text)->0, "{{wasm}}"@, "file:"@ + read.wasm->0),
            )
        }),
{
    lemma_read_lines_keep_rest(m, lines_of(text));
}

/// No placeholder is left in the keybinds that are applied, unless the path of the wasm holds a
/// brace itself.
pub proof fn law_no_placeholder_is_left(m: ManagedView, text: Seq<char>, home: Seq<char>)
    requires
        keybinds_of(text) is Some,
        m.read_manifest(text, home).target() matches Some(target) && !target.contains('{'),
    ensures
        m.read_manifest(text, home).keybinds matches Some(block) && !contains(
            block,
            "{{wasm}}"@,
        ),
{
    let read = m.read_manifest(text, home);
    let target = read.target()->0;
    let url = "file:"@ + target;
    let p = "{{wasm}}"@;
    reveal_strlit("file:");
    reveal_strlit("{{wasm}}");
    assert(url[0] == 'f');
    assert(p[0] == '{');
    assert forall|i: int| 0 <= i < p.len() implies p[i] != url[0] by {}
    assert forall|i: int| 0 <= i < url.len() implies url[i] != '{' by {
        if i >= 5 {
            assert(url[i] == target[i - 5]);
        }
    }
    law_replacing_leaves_none(keybinds_of(text)->0, p, url);
}

/// Whether a path is absolute.
pub open spec fn is_absolute(path: Seq<char>) -> bool {
    path.len() > 0 && path[0] == '/'
}

proof fn lemma_wasm_absolute(m: ManagedView, lines: Seq<Seq<char>>)
    requires
        is_absolute(m.root),
        m.wasm matches Some(wasm) ==> is_absolute(wasm),
    ensures
        m.read_lines(lines).root == m.root,
        m.read_lines(lines).wasm matches Some(wasm) ==> is_absolute(wasm),
    decreases lines.len(),
{
    if lines.len() > 0 {
        lemma_wasm_absolute(m, lines.drop_last());
    }
}

/// The URL that stands for `{{wasm}}` is absolute: a listed plugin's directory, and whatever its
/// manifest makes its target, are absolute paths, if the home directory is one and so is the
/// directory of a plugin that is used in place.
pub proof fn law_targets_are_absolute(entry: Seq<char>, home: Seq<char>, text: Seq<char>)
    requires
        is_absolute(home),
        without_prefix(entry, "file:"@) matches Some(path) ==> is_absolute(path),
    ensures
        is_absolute(plugin_of(entry, home).root),
        plugin_of(entry, home).read_manifest(text, home).target() matches Some(target)
            ==> is_absolute(target),
{
    let m = plugin_of(entry, home);
    lemma_wasm_absolute(m, lines_of(text));
    lemma_read_lines_keep_rest(m, lines_of(text));
}

/// The clones live in the store: the scripts name a clone's directory by its place there, and the
/// plugin knows the same directory with the home directory put in.
pub proof fn law_clones_live_in_the_store(entry: Seq<char>, home: Seq<char>)
    requires
        without_prefix(entry, "file:"@) is None,
        home.len() > 0,
    ensures
        shell_root_of(plugin_of(entry, home)) == STORE@ + "/"@ + plugin_of(entry, home).name,
        plugin_of(entry, home).root == replaced(STORE@, "$HOME"@, home) + "/"@ + plugin_of(
            entry,
            home,
        ).name,
{
    reveal_strlit("$HOME");
    reveal_strlit("$HOME/.config/zellij/zpm/plugins");
    reveal_strlit("/.config/zellij/zpm/plugins/");
    reveal_strlit("/");
    let p = "$HOME"@;
    let s = STORE@;
    let rest = s.skip(5);
    assert(s.subrange(0, 5) =~= p);
    assert(occurs_at(s, p, 0));
    assert forall|j: int| 5 <= j implies !#[trigger] occurs_at(s, p, j) by {
        if occurs_at(s, p, j) {
            assert(s.subrange(j, j + 5)[0] == '$');
            assert(s[j] == '$');
        }
    }
    lemma_find_text(s, p, 5);
    assert(find_text(s, p, 0) == Some(0int));
    assert(split_from(s, p, 5) =~= seq![rest]);
    assert(s.subrange(0, 0) =~= Seq::<char>::empty());
    let parts = split_at_text(s, p);
    assert(parts =~= seq![Seq::empty(), rest]);
    assert(parts.drop_last() =~= seq![Seq::empty()]);
    assert(joined(parts.drop_last(), home) =~= Seq::empty());
    assert(joined(parts, home) =~= home + rest);
    assert(rest + "/"@ =~= "/.config/zellij/zpm/plugins/"@);
    let name = plugin_of(entry, home).name;
    assert(home + rest + "/"@ + name =~= home + (rest + "/"@) + name);
}

proof fn lemma_wasm_below_root(m: ManagedView, lines: Seq<Seq<char>>)
    requires
        m.wasm matches Some(wasm) ==> occurs_at(wasm, m.root, 0),
    ensures
        m.read_lines(lines).wasm matches Some(wasm) ==> occurs_at(wasm, m.root, 0),
    decreases lines.len(),
{
    lemma_read_lines_keep_rest(m, lines);
    if lines.len() > 0 {
        let before = m.read_lines(lines.drop_last());
        lemma_wasm_below_root(m, lines.drop_last());
        lemma_read_lines_keep_rest(m, lines.drop_last());
        match m.read_lines(lines).wasm {
            Some(wasm) => {
                if m.read_lines(lines).wasm != before.wasm {
                    assert(wasm.subrange(0, m.root.len() as int) =~= m.root);
                }
            },
            None => {},
        }
    }
}

/// The home directory of a clone is left to the shell: whatever it holds, the script names the
/// clone's wasm by its place in the store. What the shell puts together is the path that the
/// plugin knows.
pub proof fn law_scripts_leave_the_home_to_the_shell(
    entry: Seq<char>,
    home: Seq<char>,
    text: Seq<char>,
)
    requires
        without_prefix(entry, "file:"@) is None,
        home.len() > 0,
    ensures
        ({
            let m = plugin_of(entry, home).read_manifest(text, home);
            m.wasm matches Some(wasm) ==> exists|rest: Seq<char>|
                {
                    &&& wasm == replaced(STORE@, "$HOME"@, home) + "/"@ + m.name + rest
                    &&& shell_wasm_of(m, wasm) == #[trigger] (STORE@ + "/"@ + m.name + rest)
                }
        }),
{
    let listed = plugin_of(entry, home);
    let m = listed.read_manifest(text, home);
    lemma_wasm_below_root(listed, lines_of(text));
    lemma_read_lines_keep_rest(listed, lines_of(text));
    law_clones_live_in_the_store(entry, home);
    match m.wasm {
        Some(wasm) => {
            let rest = wasm.skip(m.root.len() as int);
            assert(wasm =~= m.root + rest);
            assert(shell_wasm_of(m, wasm) == STORE@ + "/"@ + m.name + rest);
        },
        None => {},
    }
}

// ── reading twice ───────────────────────────────────────────────────────────────────────────────

/// What some lines make of a plugin does not depend on the plugin but for its directory: each of
/// the three keys is either set to the same value, or left as it was.
pub proof fn lemma_lines_set_or_leave(a: ManagedView, b: ManagedView, lines: Seq<Seq<char>>)
    requires
        a.root == b.root,
    ensures
        ({
            let x = a.read_lines(lines);
            let y = b.read_lines(lines);
            &&& x.wasm == y.wasm || (x.wasm == a.wasm && y.wasm == b.wasm)
            &&& x.link == y.link || (x.link == a.link && y.link == b.link)
            &&& x.permissions == y.permissions || (x.permissions == a.permissions && y.permissions
                == b.permissions)
        }),
    decreases lines.len(),
{
    if lines.len() > 0 {
        lemma_lines_set_or_leave(a, b, lines.drop_last());
        lemma_read_lines_keep_rest(a, lines.drop_last());
        lemma_read_lines_keep_rest(b, lines.drop_last());
    }
}

/// Reading a manifest twice is reading it once.
pub proof fn law_reading_twice_is_reading_once(m: ManagedView, text: Seq<char>, home: Seq<char>)
    ensures
        m.read_manifest(text, home).read_manifest(text, home) == m.read_manifest(text, home),
{
    let once = m.read_manifest(text, home);
    lemma_read_lines_keep_rest(m, lines_of(text));
    lemma_read_lines_keep_rest(once, lines_of(text));
    lemma_lines_set_or_leave(m, once, lines_of(text));
    assert(once.read_lines(lines_of(text)) =~= once);
}

// ── what a verb does ────────────────────────────────────────────────────────────────────────────

/// The part of the sync step that prints the manifests.
pub open spec fn show_scripts_of(plugins: Seq<ManagedView>) -> Seq<char>
    decreases plugins.len(),
{
    if plugins.len() == 0 {
        Seq::empty()
    } else {
        show_scripts_of(plugins.drop_last()) + show_script_of(
            plugins.last().name,
            shell_root_of(plugins.last()),
        )
    }
}

/// Status never clones, pulls or fetches: all that its sync step does is print the manifests.
pub proof fn law_status_prints_the_manifests_only(plugins: Seq<ManagedView>)
    ensures
        sync_script_of(Verb::Status, plugins) == show_scripts_of(plugins),
    decreases plugins.len(),
{
    if plugins.len() > 0 {
        law_status_prints_the_manifests_only(plugins.drop_last());
        let s = sync_script_of(Verb::Status, plugins.drop_last());
        assert(git_script_of(Verb::Status, plugins.last()) =~= Seq::empty());
        assert(s + Seq::empty() =~= s);
    }
}

/// Local plugins are used in place: no verb runs git for them.
pub proof fn law_local_plugins_are_used_in_place(verb: Verb, plugins: Seq<ManagedView>)
    requires
        forall|i: int| 0 <= i < plugins.len() ==> (#[trigger] plugins[i]).github is None,
    ensures
        sync_script_of(verb, plugins) == show_scripts_of(plugins),
    decreases plugins.len(),
{
    if plugins.len() > 0 {
        let before = plugins.drop_last();
        assert forall|i: int| 0 <= i < before.len() implies (
        #[trigger] before[i]).github is None by {
            assert(before[i] == plugins[i]);
        }
        law_local_plugins_are_used_in_place(verb, before);
        let s = sync_script_of(verb, before);
        assert(plugins.last() == plugins[plugins.len() - 1]);
        assert(git_script_of(verb, plugins.last()) =~= Seq::empty());
        assert(s + Seq::empty() =~= s);
    }
}

/// An update does all that an install does, and then pulls.
pub proof fn law_update_is_install_and_pull(m: ManagedView)
    ensures
        git_script_of(Verb::Update, m) == git_script_of(Verb::Install, m) + (match m.github {
            Some(_) => pull_script_of(m.name, shell_root_of(m)),
            None => Seq::empty(),
        }),
{
    assert(git_script_of(Verb::Update, m) =~= git_script_of(Verb::Install, m) + (match m.github {
        Some(_) => pull_script_of(m.name, shell_root_of(m)),
        None => Seq::empty(),
    }));
}

// ── quoting for the shell ───────────────────────────────────────────────────────────────────────

/// What a shell makes of a word that is put together from single-quoted parts and escaped
/// characters: between single quotes every character stands for itself, and outside of them a
/// backslash makes the next one stand for itself.
pub open spec fn shell_word(s: Seq<char>, quoted: bool) -> Option<Seq<char>>
    decreases s.len(),
{
    if s.len() == 0 {
        if quoted {
            None
        } else {
            Some(Seq::empty())
        }
    } else if s[0] == '\'' {
        shell_word(s.skip(1), !quoted)
    } else if quoted {
        match shell_word(s.skip(1), true) {
            Some(rest) => Some(seq![s[0]] + rest),
            None => None,
        }
    } else if s[0] == '\\' && s.len() > 1 {
        match shell_word(s.skip(2), false) {
            Some(rest) => Some(seq![s[1]] + rest),
            None => None,
        }
    } else {
        None
    }
}

proof fn lemma_shell_plain(piece: Seq<char>, rest: Seq<char>)
    requires
        !piece.contains('\''),
    ensures
        shell_word(piece + rest, true) == match shell_word(rest, true) {
            Some(word) => Some(piece + word),
            None => None,
        },
    decreases piece.len(),
{
    let s = piece + rest;
    if piece.len() == 0 {
        assert(s =~= rest);
        match shell_word(rest, true) {
            Some(word) => {
                assert(piece + word =~= word);
            },
            None => {},
        }
    } else {
        assert(s[0] == piece[0]);
        assert(piece[0] != '\'');
        let tail = piece.drop_first();
        assert forall|i: int| 0 <= i < tail.len() implies tail[i] != '\'' by {
            assert(tail[i] == piece[i + 1]);
        }
        lemma_shell_plain(tail, rest);
        assert(s.skip(1) =~= tail + rest);
        match shell_word(rest, true) {
            Some(word) => {
                assert(seq![s[0]] + (tail + word) =~= piece + word);
            },
            None => {},
        }
    }
}

proof fn lemma_shell_quote(rest: Seq<char>)
    ensures
        shell_word("'\\''"@ + rest, true) == match shell_word(rest, true) {
            Some(word) => Some("'"@ + word),
            None => None,
        },
{
    reveal_strlit("'\\''");
    reveal_strlit("'");
    let s = "'\\''"@ + rest;
    assert(s[0] == '\'' && s[1] == '\\' && s[2] == '\'' && s[3] == '\'');
    let a = s.skip(1);
    let b = a.skip(2);
    assert(a[0] == '\\' && a[1] == '\'');
    assert(b[0] == '\'');
    assert(b.skip(1) =~= rest);
    assert(shell_word(s, true) == shell_word(a, false));
    assert(shell_word(b, false) == shell_word(rest, true));
    assert("'"@ =~= seq![a[1]]);
}

proof fn lemma_shell_pieces(pieces: Seq<Seq<char>>)
    requires
        pieces.len() > 0,
        forall|i: int| 0 <= i < pieces.len() ==> !(#[trigger] pieces[i]).contains('\''),
    ensures
        shell_word(joined(pieces, "'\\''"@) + "'"@, true) == Some(joined(pieces, "'"@)),
    decreases pieces.len(),
{
    reveal_strlit("'");
    let end = "'"@;
    if pieces.len() == 1 {
        assert(shell_word(end, true) == Some(Seq::<char>::empty())) by {
            assert(end[0] == '\'');
            assert(end.skip(1) =~= Seq::empty());
            reveal_with_fuel(shell_word, 2);
        }
        assert(!pieces[0].contains('\''));
        lemma_shell_plain(pieces[0], end);
        assert(pieces[0] + Seq::<char>::empty() =~= pieces[0]);
    } else {
        let rest = pieces.drop_first();
        assert forall|i: int| 0 <= i < rest.len() implies !(#[trigger] rest[i]).contains('\'') by {
            assert(rest[i] == pieces[i + 1]);
        }
        lemma_shell_pieces(rest);
        lemma_joined_front(pieces, "'\\''"@);
        lemma_joined_front(pieces, "'"@);
        let tail = joined(rest, "'\\''"@) + end;
        assert(joined(pieces, "'\\''"@) + end =~= pieces[0] + ("'\\''"@ + tail));
        assert(!pieces[0].contains('\''));
        lemma_shell_plain(pieces[0], "'\\''"@ + tail);
        lemma_shell_quote(tail);
        assert(pieces[0] + ("'"@ + joined(rest, "'"@)) =~= joined(pieces, "'"@));
    }
}

/// The report gets through the shell as it is, whatever quotes it holds: between single quotes,
/// the quoted text stands for the text.
pub proof fn law_the_report_gets_through_the_shell(report: Seq<char>)
    ensures
        shell_word("'"@ + shell_quoted(report) + "'"@, false) == Some(report),
{
    reveal_strlit("'");
    let pieces = split_at_text(report, "'"@);
    assert forall|i: int| 0 <= i < pieces.len() implies !(#[trigger] pieces[i]).contains('\'') by {
        law_pieces_hold_no_separator(report, "'"@, i);
        if pieces[i].contains('\'') {
            let k = choose|k: int| 0 <= k < pieces[i].len() && pieces[i][k] == '\'';
            assert(pieces[i].subrange(k, k + 1) =~= "'"@);
            assert(occurs_at(pieces[i], "'"@, k));
        }
    }
    lemma_shell_pieces(pieces);
    law_joining_undoes_splitting(report, "'"@);
    let word = "'"@ + shell_quoted(report) + "'"@;
    assert(word[0] == '\'');
    assert(word.skip(1) =~= shell_quoted(report) + "'"@);
}

/// The key of a plugin's block gets through the shell as it is, whatever quotes the path holds.
pub proof fn law_the_cache_key_gets_through_the_shell(target: Seq<char>)
    ensures
        shell_word("'"@ + shell_quoted(cache_key_of(target)) + "'"@, false) == Some(
            cache_key_of(target),
        ),
{
    law_the_report_gets_through_the_shell(cache_key_of(target));
}

/// Two reports that differ are written down by scripts that differ.
pub proof fn law_reports_are_written_down_apart(a: Seq<char>, b: Seq<char>)
    ensures
        report_script_of(a) == report_script_of(b) ==> a == b,
{
    let head = "mkdir -p \"$HOME/.config/zellij/zpm\"; printf '%s\\n' '"@;
    let end = "' > \"$HOME/.config/zellij/zpm/last-report\""@;
    let x = report_script_of(a);
    let y = report_script_of(b);
    assert(x == head + shell_quoted(a) + end);
    assert(y == head + shell_quoted(b) + end);
    assert(shell_quoted(a) =~= x.subrange(head.len() as int, x.len() - end.len()));
    assert(shell_quoted(b) =~= y.subrange(head.len() as int, y.len() - end.len()));
    law_the_report_gets_through_the_shell(a);
    law_the_report_gets_through_the_shell(b);
}

} // verus!
