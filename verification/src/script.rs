//! The shell scripts of the steps that a run takes on the host.
use vstd::prelude::*;
use vstd::string::*;

use crate::plugin::{plugin_views, Managed, ManagedView};
use crate::text::{
    after_last_char, last_piece, replace, replaced, strip_prefix, texts, without_prefix,
};
use crate::verb::Verb;

verus! {

/// The user's manifest.
pub const MANIFEST: &'static str = "$HOME/.config/zellij/zpm.kdl";

/// Where the clones live.
pub const STORE: &'static str = "$HOME/.config/zellij/zpm/plugins";

/// The host's permission cache.
pub const PERMS: &'static str = "$HOME/.cache/zellij/permissions.kdl";

// ── quoting ─────────────────────────────────────────────────────────────────────────────────────

/// A text made ready to stand between single quotes in a shell script.
pub open spec fn shell_quoted(s: Seq<char>) -> Seq<char> {
    replaced(s, "'"@, "'\\''"@)
}

fn quote_for_shell(s: &str) -> (r: String)
    ensures
        r@ == shell_quoted(s@),
{
    proof {
        reveal_strlit("'");
    }
    replace(s, "'", "'\\''")
}

// ── the manifest step ───────────────────────────────────────────────────────────────────────────

/// Makes sure that the store exists, then prints the home directory on a line of its own and the
/// user's manifest after it.
pub open spec fn manifest_script_of() -> Seq<char> {
    "mkdir -p \""@ + STORE@ + "\"; echo \"$HOME\"; cat \""@ + MANIFEST@ + "\" 2>/dev/null"@
}

/// The manifest step's script.
pub fn manifest_script() -> (r: String)
    ensures
        r@ == manifest_script_of(),
{
    let mut s = "mkdir -p \"".to_owned();
    s.append(STORE);
    s.append("\"; echo \"$HOME\"; cat \"");
    s.append(MANIFEST);
    s.append("\" 2>/dev/null");
    s
}

/// The plugin that an entry of the user's manifest names: `file:` and a directory used in place,
/// or `owner/repo`, whose clone has a directory of its own in the store. The clone's path is
/// spelled out from `home`: the keybinds and the permission cache name the wasm by it, and no
/// shell reads it there. If the home directory is not known it is left to be put in.
pub open spec fn plugin_of(entry: Seq<char>, home: Seq<char>) -> ManagedView {
    match without_prefix(entry, "file:"@) {
        Some(path) => ManagedView::fresh(last_piece(path, '/'), None, path),
        None => {
            let name = last_piece(entry, '/');
            let root = if home.len() == 0 {
                STORE@ + "/"@ + name
            } else {
                home + "/.config/zellij/zpm/plugins/"@ + name
            };
            ManagedView::fresh(name, Some(entry), root)
        },
    }
}

/// The plugin that an entry of the user's manifest names.
pub fn plugin_for(entry: &str, home: &str) -> (r: Managed)
    ensures
        r@ == plugin_of(entry@, home@),
{
    match strip_prefix(entry, "file:") {
        Some(path) => Managed::new(
            after_last_char(path, '/').to_owned(),
            None,
            path.to_owned(),
        ),
        None => {
            let name = after_last_char(entry, '/');
            let mut root = if home.is_empty() {
                let mut store = STORE.to_owned();
                store.append("/");
                store
            } else {
                let mut store = home.to_owned();
                store.append("/.config/zellij/zpm/plugins/");
                store
            };
            root.append(name);
            Managed::new(name.to_owned(), Some(entry.to_owned()), root)
        },
    }
}

// ── the sync step ───────────────────────────────────────────────────────────────────────────────

/// A plugin's directory as the sync step's script writes it: for a clone the shell puts the home
/// directory in.
pub open spec fn shell_root_of(m: ManagedView) -> Seq<char> {
    match m.github {
        Some(_) => STORE@ + "/"@ + m.name,
        None => m.root,
    }
}

fn shell_root(m: &Managed) -> (r: String)
    ensures
        r@ == shell_root_of(m@),
{
    match &m.github {
        Some(_) => {
            let mut root = STORE.to_owned();
            root.append("/");
            root.append(m.name.as_str());
            root
        },
        None => m.root.clone(),
    }
}

/// Clones a repository unless its clone exists.
pub open spec fn clone_script_of(
    name: Seq<char>,
    repo: Seq<char>,
    root: Seq<char>,
) -> Seq<char> {
    "if [ ! -d \""@ + root + "/.git\" ]; then git clone --depth 1 \"https://github.com/"@ + repo
        + "\" \""@ + root + "\" >/dev/null 2>&1 || echo \"@@FAIL "@ + name
        + " clone failed\"; fi\n"@
}

fn clone_script(name: &str, repo: &str, root: &str) -> (r: String)
    ensures
        r@ == clone_script_of(name@, repo@, root@),
{
    let mut s = "if [ ! -d \"".to_owned();
    s.append(root);
    s.append("/.git\" ]; then git clone --depth 1 \"https://github.com/");
    s.append(repo);
    s.append("\" \"");
    s.append(root);
    s.append("\" >/dev/null 2>&1 || echo \"@@FAIL ");
    s.append(name);
    s.append(" clone failed\"; fi\n");
    s
}

/// Pulls a clone.
pub open spec fn pull_script_of(name: Seq<char>, root: Seq<char>) -> Seq<char> {
    "git -C \""@ + root + "\" pull --ff-only >/dev/null 2>&1 || echo \"@@FAIL "@ + name
        + " pull failed\"\n"@
}

fn pull_script(name: &str, root: &str) -> (r: String)
    ensures
        r@ == pull_script_of(name@, root@),
{
    let mut s = "git -C \"".to_owned();
    s.append(root);
    s.append("\" pull --ff-only >/dev/null 2>&1 || echo \"@@FAIL ");
    s.append(name);
    s.append(" pull failed\"\n");
    s
}

/// Fetches, then compares plain hashes, which a shallow clone allows: no ancestry is walked.
pub open spec fn check_script_of(name: Seq<char>, root: Seq<char>) -> Seq<char> {
    "if [ -d \""@ + root + "/.git\" ] && git -C \""@ + root
        + "\" fetch -q origin >/dev/null 2>&1; then b=$(git -C \""@ + root
        + "\" rev-parse --abbrev-ref HEAD 2>/dev/null); l=$(git -C \""@ + root
        + "\" rev-parse HEAD 2>/dev/null); r=$(git -C \""@ + root
        + "\" rev-parse \"origin/$b\" 2>/dev/null); if [ -n \"$l\" ] && [ \"$l\" = \"$r\" ]; then echo \"@@CHECK "@
        + name + " same\"; else echo \"@@CHECK "@ + name + " diff\"; fi; else echo \"@@CHECK "@
        + name + " unknown\"; fi\n"@
}

fn check_script(name: &str, root: &str) -> (r: String)
    ensures
        r@ == check_script_of(name@, root@),
{
    let mut s = "if [ -d \"".to_owned();
    s.append(root);
    s.append("/.git\" ] && git -C \"");
    s.append(root);
    s.append("\" fetch -q origin >/dev/null 2>&1; then b=$(git -C \"");
    s.append(root);
    s.append("\" rev-parse --abbrev-ref HEAD 2>/dev/null); l=$(git -C \"");
    s.append(root);
    s.append("\" rev-parse HEAD 2>/dev/null); r=$(git -C \"");
    s.append(root);
    s.append("\" rev-parse \"origin/$b\" 2>/dev/null); if [ -n \"$l\" ] && [ \"$l\" = \"$r\" ]; then echo \"@@CHECK ");
    s.append(name);
    s.append(" same\"; else echo \"@@CHECK ");
    s.append(name);
    s.append(" diff\"; fi; else echo \"@@CHECK ");
    s.append(name);
    s.append(" unknown\"; fi\n");
    s
}

/// Prints a plugin's own manifest after a marker, or a mark that it has none.
pub open spec fn show_script_of(name: Seq<char>, root: Seq<char>) -> Seq<char> {
    "echo \"===PLUGIN "@ + name + "\"\ncat \""@ + root
        + "/zpm.kdl\" 2>/dev/null || echo @@NOMANIFEST@@\n"@
}

fn show_script(name: &str, root: &str) -> (r: String)
    ensures
        r@ == show_script_of(name@, root@),
{
    let mut s = "echo \"===PLUGIN ".to_owned();
    s.append(name);
    s.append("\"\ncat \"");
    s.append(root);
    s.append("/zpm.kdl\" 2>/dev/null || echo @@NOMANIFEST@@\n");
    s
}

/// What the sync step does with git for one plugin. Local plugins are never touched.
pub open spec fn git_script_of(verb: Verb, m: ManagedView) -> Seq<char> {
    match m.github {
        None => Seq::empty(),
        Some(repo) => match verb {
            Verb::Status => Seq::empty(),
            Verb::Check => check_script_of(m.name, shell_root_of(m)),
            Verb::Install => clone_script_of(m.name, repo, shell_root_of(m)),
            Verb::Update => clone_script_of(m.name, repo, shell_root_of(m)) + pull_script_of(
                m.name,
                shell_root_of(m),
            ),
        },
    }
}

fn git_script(verb: Verb, m: &Managed) -> (r: String)
    ensures
        r@ == git_script_of(verb, m@),
{
    let root = shell_root(m);
    match &m.github {
        None => String::new(),
        Some(repo) => match verb {
            Verb::Status => String::new(),
            Verb::Check => check_script(m.name.as_str(), root.as_str()),
            Verb::Install => clone_script(m.name.as_str(), repo.as_str(), root.as_str()),
            Verb::Update => {
                let mut s = clone_script(m.name.as_str(), repo.as_str(), root.as_str());
                s.append(pull_script(m.name.as_str(), root.as_str()).as_str());
                s
            },
        },
    }
}

/// The sync step's script: for each plugin, what git has to do, then its manifest.
pub open spec fn sync_script_of(verb: Verb, plugins: Seq<ManagedView>) -> Seq<char>
    decreases plugins.len(),
{
    if plugins.len() == 0 {
        Seq::empty()
    } else {
        sync_script_of(verb, plugins.drop_last()) + git_script_of(verb, plugins.last())
            + show_script_of(plugins.last().name, shell_root_of(plugins.last()))
    }
}

/// The sync step's script.
pub fn sync_script(verb: Verb, plugins: &Vec<Managed>) -> (r: String)
    ensures
        r@ == sync_script_of(verb, plugin_views(plugins@)),
{
    let mut s = String::new();
    let ghost all = plugin_views(plugins@);
    let mut i: usize = 0;
    while i < plugins.len()
        invariant
            all == plugin_views(plugins@),
            i <= plugins@.len(),
            s@ == sync_script_of(verb, all.take(i as int)),
        decreases plugins@.len() - i,
    {
        assert(all.take(i + 1).drop_last() =~= all.take(i as int));
        assert(all.take(i + 1).last() == plugins@[i as int]@);
        s.append(git_script(verb, &plugins[i]).as_str());
        let root = shell_root(&plugins[i]);
        s.append(show_script(plugins[i].name.as_str(), root.as_str()).as_str());
        i = i + 1;
    }
    assert(all.take(i as int) =~= all);
    s
}

// ── the grant step ──────────────────────────────────────────────────────────────────────────────

/// Copies a linked plugin's wasm to where layouts refer to it, if it has changed.
pub open spec fn install_script_of(wasm: Seq<char>, installed: Seq<char>) -> Seq<char> {
    "mkdir -p \"$HOME/.config/zellij/plugins\"\ncmp -s \""@ + wasm + "\" \""@ + installed
        + "\" || cp \""@ + wasm + "\" \""@ + installed + "\"\n"@
}

fn install_script(wasm: &str, installed: &str) -> (r: String)
    ensures
        r@ == install_script_of(wasm@, installed@),
{
    let mut s = "mkdir -p \"$HOME/.config/zellij/plugins\"\ncmp -s \"".to_owned();
    s.append(wasm);
    s.append("\" \"");
    s.append(installed);
    s.append("\" || cp \"");
    s.append(wasm);
    s.append("\" \"");
    s.append(installed);
    s.append("\"\n");
    s
}

/// The lines of a permission block, as `printf` writes them.
pub open spec fn permission_lines_of(permissions: Seq<Seq<char>>) -> Seq<char>
    decreases permissions.len(),
{
    if permissions.len() == 0 {
        Seq::empty()
    } else {
        permission_lines_of(permissions.drop_last()) + ("    "@ + permissions.last() + "\\n"@)
    }
}

fn permission_lines(permissions: &Vec<String>) -> (r: String)
    ensures
        r@ == permission_lines_of(texts(permissions@)),
{
    let mut s = String::new();
    let ghost all = texts(permissions@);
    let mut i: usize = 0;
    while i < permissions.len()
        invariant
            all == texts(permissions@),
            i <= permissions@.len(),
            s@ == permission_lines_of(all.take(i as int)),
        decreases permissions@.len() - i,
    {
        assert(all.take(i + 1).drop_last() =~= all.take(i as int));
        assert(all.take(i + 1).last() == permissions@[i as int]@);
        let mut line = "    ".to_owned();
        line.append(permissions[i].as_str());
        line.append("\\n");
        s.append(line.as_str());
        i = i + 1;
    }
    assert(all.take(i as int) =~= all);
    s
}

/// The line that starts a target's block in the permission cache.
pub open spec fn cache_key_of(target: Seq<char>) -> Seq<char> {
    "\""@ + target + "\" {"@
}

/// Rewrites a plugin's block in the permission cache. The host sometimes rewrites that file from
/// a live server's memory and brings a stale block back, so the old block is dropped (`awk`) and
/// the current one appended (`printf`); a block that is only appended once would stay shadowed.
/// What is looked for is the target's real path; `shell_target` is how the shell is given it.
pub open spec fn cache_script_of(
    target: Seq<char>,
    shell_target: Seq<char>,
    permissions: Seq<Seq<char>>,
) -> Seq<char> {
    "t=\""@ + PERMS@ + ".zpm.$$\"\nawk -v k='"@ + shell_quoted(cache_key_of(target))
        + "' 'BEGIN{s=0} index($0,k)==1{s=1;next} s{if($0~/^}/)s=0;next} {print}' \""@ + PERMS@
        + "\" 2>/dev/null > \"$t\"\nprintf '\"%s\" {\\n"@ + permission_lines_of(permissions)
        + "}\\n' \""@ + shell_target + "\" >> \"$t\"\nmv \"$t\" \""@ + PERMS@ + "\"\n"@
}

fn cache_script(target: &str, shell_target: &str, permissions: &Vec<String>) -> (r: String)
    ensures
        r@ == cache_script_of(target@, shell_target@, texts(permissions@)),
{
    let mut key = "\"".to_owned();
    key.append(target);
    key.append("\" {");
    let mut s = "t=\"".to_owned();
    s.append(PERMS);
    s.append(".zpm.$$\"\nawk -v k='");
    s.append(quote_for_shell(key.as_str()).as_str());
    s.append("' 'BEGIN{s=0} index($0,k)==1{s=1;next} s{if($0~/^}/)s=0;next} {print}' \"");
    s.append(PERMS);
    s.append("\" 2>/dev/null > \"$t\"\nprintf '\"%s\" {\\n");
    s.append(permission_lines(permissions).as_str());
    s.append("}\\n' \"");
    s.append(shell_target);
    s.append("\" >> \"$t\"\nmv \"$t\" \"");
    s.append(PERMS);
    s.append("\"\n");
    s
}

/// The path of a plugin's own wasm as the grant step's script writes it: below a clone's
/// directory, the shell puts the home directory in.
pub open spec fn shell_wasm_of(m: ManagedView, wasm: Seq<char>) -> Seq<char> {
    match without_prefix(wasm, m.root) {
        Some(rest) if m.github is Some => shell_root_of(m) + rest,
        _ => wasm,
    }
}

fn shell_wasm(m: &Managed, wasm: &str) -> (r: String)
    ensures
        r@ == shell_wasm_of(m@, wasm@),
{
    if m.github.is_some() {
        if let Some(rest) = strip_prefix(wasm, m.root.as_str()) {
            let mut path = shell_root(m);
            path.append(rest);
            return path;
        }
    }
    wasm.to_owned()
}

/// What the grant step does for one plugin: nothing unless its manifest names a wasm; else it
/// installs the wasm if the plugin is linked, and grants the permissions if there are any.
pub open spec fn plugin_grant_of(m: ManagedView) -> Seq<char> {
    match m.wasm {
        None => Seq::empty(),
        Some(wasm) => {
            let own = shell_wasm_of(m, wasm);
            match m.installed {
                Some(copy) => install_script_of(own, copy) + (if m.permissions.len() == 0 {
                    Seq::empty()
                } else {
                    cache_script_of(copy, copy, m.permissions)
                }),
                None => if m.permissions.len() == 0 {
                    Seq::empty()
                } else {
                    cache_script_of(wasm, own, m.permissions)
                },
            }
        },
    }
}

fn plugin_grant(m: &Managed) -> (r: String)
    ensures
        r@ == plugin_grant_of(m@),
{
    let wasm = match &m.wasm {
        Some(wasm) => wasm,
        None => {
            return String::new();
        },
    };
    let own = shell_wasm(m, wasm.as_str());
    match &m.installed {
        Some(copy) => {
            let mut s = install_script(own.as_str(), copy.as_str());
            let ghost before = s@;
            if m.permissions.len() > 0 {
                s.append(cache_script(copy.as_str(), copy.as_str(), &m.permissions).as_str());
            } else {
                assert(before + Seq::<char>::empty() =~= before);
            }
            s
        },
        None => if m.permissions.len() > 0 {
            cache_script(wasm.as_str(), own.as_str(), &m.permissions)
        } else {
            String::new()
        },
    }
}

/// What the grant step does for some plugins, in order.
pub open spec fn plugin_grants_of(plugins: Seq<ManagedView>) -> Seq<char>
    decreases plugins.len(),
{
    if plugins.len() == 0 {
        Seq::empty()
    } else {
        plugin_grants_of(plugins.drop_last()) + plugin_grant_of(plugins.last())
    }
}

/// The grant step's script.
pub open spec fn grant_script_of(plugins: Seq<ManagedView>) -> Seq<char> {
    "mkdir -p \"$HOME/.cache/zellij\"\n"@ + plugin_grants_of(plugins)
}

/// The grant step's script.
pub fn grant_script(plugins: &Vec<Managed>) -> (r: String)
    ensures
        r@ == grant_script_of(plugin_views(plugins@)),
{
    let mut s = "mkdir -p \"$HOME/.cache/zellij\"\n".to_owned();
    let ghost head = s@;
    let ghost all = plugin_views(plugins@);
    let mut i: usize = 0;
    assert(s@ =~= head + plugin_grants_of(all.take(0)));
    while i < plugins.len()
        invariant
            all == plugin_views(plugins@),
            i <= plugins@.len(),
            s@ == head + plugin_grants_of(all.take(i as int)),
        decreases plugins@.len() - i,
    {
        assert(all.take(i + 1).drop_last() =~= all.take(i as int));
        assert(all.take(i + 1).last() == plugins@[i as int]@);
        s.append(plugin_grant(&plugins[i]).as_str());
        assert(s@ =~= head + plugin_grants_of(all.take(i + 1)));
        i = i + 1;
    }
    assert(all.take(i as int) =~= all);
    s
}

// ── the report step ─────────────────────────────────────────────────────────────────────────────

/// Writes the report to where the command line's acknowledgement points.
pub open spec fn report_script_of(report: Seq<char>) -> Seq<char> {
    "mkdir -p \"$HOME/.config/zellij/zpm\"; printf '%s\\n' '"@ + shell_quoted(report)
        + "' > \"$HOME/.config/zellij/zpm/last-report\""@
}

/// The report step's script.
pub fn report_script(report: &str) -> (r: String)
    ensures
        r@ == report_script_of(report@),
{
    let quoted = quote_for_shell(report);
    let mut s = "mkdir -p \"$HOME/.config/zellij/zpm\"; printf '%s\\n' '".to_owned();
    s.append(quoted.as_str());
    s.append("' > \"$HOME/.config/zellij/zpm/last-report\"");
    s
}

} // verus!
