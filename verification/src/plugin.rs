//! A managed plugin: where it comes from, and what its own manifest says of it.
use vstd::prelude::*;
use vstd::string::*;

use crate::manifest::{keybinds_block, keybinds_of, quoted, quoted_of, uncommented, uncommented_of};
use crate::text::{
    contains, first_word, has_text, lines, lines_of, opt_text, replace, replaced, same, texts,
    word,
};

verus! {

/// A plugin that the manager looks after.
#[derive(Clone)]
pub struct Managed {
    /// The last part of the repository's name, or of the local directory's path.
    pub name: String,
    /// `owner/repo` for a git source, `None` for a local one.
    pub github: Option<String>,
    /// The plugin's directory on the host.
    pub root: String,
    /// The path of the built wasm inside that directory.
    pub wasm: Option<String>,
    /// The name under which the wasm is installed, for plugins that layouts refer to.
    pub link: Option<String>,
    /// The path of the installed copy, when there is a `link`.
    pub installed: Option<String>,
    /// The permissions that the plugin is granted before it is loaded.
    pub permissions: Vec<String>,
    /// The keybinds block, ready to apply.
    pub keybinds: Option<String>,
    /// One status line for the report.
    pub note: String,
    /// What the check found: `same`, `diff`, or anything else if it could not tell.
    pub check: Option<String>,
}

/// The contents of a [`Managed`].
#[verifier::ext_equal]
pub struct ManagedView {
    pub name: Seq<char>,
    pub github: Option<Seq<char>>,
    pub root: Seq<char>,
    pub wasm: Option<Seq<char>>,
    pub link: Option<Seq<char>>,
    pub installed: Option<Seq<char>>,
    pub permissions: Seq<Seq<char>>,
    pub keybinds: Option<Seq<char>>,
    pub note: Seq<char>,
    pub check: Option<Seq<char>>,
}

impl View for Managed {
    type V = ManagedView;

    open spec fn view(&self) -> ManagedView {
        ManagedView {
            name: self.name@,
            github: opt_text(self.github),
            root: self.root@,
            wasm: opt_text(self.wasm),
            link: opt_text(self.link),
            installed: opt_text(self.installed),
            permissions: texts(self.permissions@),
            keybinds: opt_text(self.keybinds),
            note: self.note@,
            check: opt_text(self.check),
        }
    }
}

/// The views of a sequence of plugins.
pub open spec fn plugin_views(v: Seq<Managed>) -> Seq<ManagedView> {
    v.map_values(|m: Managed| m@)
}

/// The first of the quoted strings of a line.
pub open spec fn first_quoted(line: Seq<char>) -> Option<Seq<char>> {
    if quoted_of(line).len() > 0 {
        Some(quoted_of(line)[0])
    } else {
        None
    }
}

impl ManagedView {
    /// A plugin of which only the source is known.
    pub open spec fn fresh(
        name: Seq<char>,
        github: Option<Seq<char>>,
        root: Seq<char>,
    ) -> ManagedView {
        ManagedView {
            name,
            github,
            root,
            wasm: None,
            link: None,
            installed: None,
            permissions: Seq::empty(),
            keybinds: None,
            note: Seq::empty(),
            check: None,
        }
    }

    /// The wasm that everything points at: the installed copy if there is one, else the built one.
    pub open spec fn target(self) -> Option<Seq<char>> {
        if self.installed is Some {
            self.installed
        } else {
            self.wasm
        }
    }

    /// The plugin after one line of its manifest.
    pub open spec fn read_line(self, line: Seq<char>) -> ManagedView {
        let code = uncommented_of(line);
        let key = first_word(code);
        if key == Some("wasm"@) {
            match first_quoted(code) {
                Some(rel) => ManagedView { wasm: Some(self.root + "/"@ + rel), ..self },
                None => self,
            }
        } else if key == Some("link"@) {
            ManagedView { link: first_quoted(code), ..self }
        } else if key == Some("permissions"@) {
            ManagedView { permissions: quoted_of(code), ..self }
        } else {
            self
        }
    }

    /// The plugin after some lines of its manifest, in order: a later line overrides.
    pub open spec fn read_lines(self, lines: Seq<Seq<char>>) -> ManagedView
        decreases lines.len(),
    {
        if lines.len() == 0 {
            self
        } else {
            self.read_lines(lines.drop_last()).read_line(lines.last())
        }
    }

    /// The plugin with the path of its installed copy, if it has a `link` and a wasm to install.
    pub open spec fn with_installed(self, home: Seq<char>) -> ManagedView {
        if self.link is Some && self.wasm is Some {
            ManagedView {
                installed: Some(home + "/.config/zellij/plugins/"@ + self.link->0),
                ..self
            }
        } else {
            self
        }
    }

    /// The plugin with its keybinds block, in which `{{wasm}}` stands for the target's URL.
    pub open spec fn with_keybinds(self, text: Seq<char>) -> ManagedView {
        match (keybinds_of(text), self.target()) {
            (Some(block), Some(target)) => ManagedView {
                keybinds: Some(replaced(block, "{{wasm}}"@, "file:"@ + target)),
                ..self
            },
            _ => self,
        }
    }

    /// The plugin once its manifest has been read.
    pub open spec fn read_manifest(self, text: Seq<char>, home: Seq<char>) -> ManagedView {
        self.read_lines(lines_of(text)).with_installed(home).with_keybinds(text)
    }

    /// What the report says of a plugin whose manifest has been read.
    pub open spec fn verdict(self) -> Seq<char> {
        if self.wasm is None {
            "✗ manifest names no wasm"@
        } else if self.keybinds is Some {
            "✓"@
        } else if self.link is Some {
            "✓ (layout plugin)"@
        } else {
            "✓ (no keybinds)"@
        }
    }

    /// The plugin after its section of the sync step's output.
    pub open spec fn read_section(self, body: Seq<char>, home: Seq<char>) -> ManagedView {
        if contains(body, "@@NOMANIFEST@@"@) {
            ManagedView { note: "✗ no zpm.kdl manifest"@, ..self }
        } else {
            let read = self.read_manifest(body, home);
            ManagedView { note: read.verdict(), ..read }
        }
    }
}

fn first_of(mut v: Vec<String>) -> (r: Option<String>)
    ensures
        opt_text(r) == (if v@.len() > 0 {
            Some(texts(v@)[0])
        } else {
            None
        }),
{
    if v.len() > 0 {
        Some(v.swap_remove(0))
    } else {
        None
    }
}

impl Managed {
    /// A plugin of which only the source is known.
    pub fn new(name: String, github: Option<String>, root: String) -> (r: Managed)
        ensures
            r@ == ManagedView::fresh(name@, opt_text(github), root@),
    {
        let r = Managed {
            name,
            github,
            root,
            wasm: None,
            link: None,
            installed: None,
            permissions: Vec::new(),
            keybinds: None,
            note: String::new(),
            check: None,
        };
        assert(r@.permissions =~= Seq::empty());
        r
    }

    fn read_line(&mut self, line: &str)
        ensures
            final(self)@ == old(self)@.read_line(line@),
    {
        let code = uncommented(line);
        let key = match word(code) {
            Some(key) => key,
            None => {
                return ;
            },
        };
        if same(key, "wasm") {
            if let Some(rel) = first_of(quoted(code)) {
                let mut path = self.root.clone();
                path.append("/");
                path.append(rel.as_str());
                self.wasm = Some(path);
            }
        } else if same(key, "link") {
            self.link = first_of(quoted(code));
        } else if same(key, "permissions") {
            self.permissions = quoted(code);
        }
    }

    /// Reads this plugin's own manifest; its root is already known. With `link`, the wasm is
    /// installed in the fixed plugins directory, the place that layouts refer to, and everything
    /// else points there; without it the repository's own wasm is the target.
    pub fn read_manifest(&mut self, text: &str, home: &str)
        ensures
            final(self)@ == old(self)@.read_manifest(text@, home@),
    {
        let ls = lines(text);
        let ghost all = texts(ls@);
        let mut i: usize = 0;
        while i < ls.len()
            invariant
                all == texts(ls@),
                i <= ls@.len(),
                self@ == old(self)@.read_lines(all.take(i as int)),
            decreases ls@.len() - i,
        {
            assert(all.take(i + 1).drop_last() =~= all.take(i as int));
            assert(all.take(i + 1).last() == ls@[i as int]@);
            self.read_line(ls[i].as_str());
            i = i + 1;
        }
        assert(all.take(i as int) =~= all);
        let installed = match (&self.link, &self.wasm) {
            (Some(link), Some(_)) => {
                let mut path = home.to_owned();
                path.append("/.config/zellij/plugins/");
                path.append(link.as_str());
                Some(path)
            },
            _ => None,
        };
        if installed.is_some() {
            self.installed = installed;
        }
        assert(self@ == old(self)@.read_lines(all).with_installed(home@));
        if let Some(block) = keybinds_block(text) {
            if let Some(target) = self.target() {
                let mut url = "file:".to_owned();
                url.append(target.as_str());
                proof {
                    reveal_strlit("{{wasm}}");
                }
                self.keybinds = Some(replace(block.as_str(), "{{wasm}}", url.as_str()));
            }
        }
    }

    /// The wasm path that everything points at: the installed copy when linked, else the
    /// repository's own.
    pub fn target(&self) -> (r: Option<String>)
        ensures
            opt_text(r) == self@.target(),
    {
        match &self.installed {
            Some(installed) => Some(installed.clone()),
            None => match &self.wasm {
                Some(wasm) => Some(wasm.clone()),
                None => None,
            },
        }
    }

    fn verdict(&self) -> (r: &'static str)
        ensures
            r@ == self@.verdict(),
    {
        match (&self.wasm, &self.keybinds, &self.link) {
            (Some(_), Some(_), _) => "✓",
            (Some(_), None, Some(_)) => "✓ (layout plugin)",
            (Some(_), None, None) => "✓ (no keybinds)",
            (None, _, _) => "✗ manifest names no wasm",
        }
    }

    /// Takes in this plugin's section of the sync step's output: its manifest, or the mark that
    /// it has none.
    pub fn read_section(&mut self, body: &str, home: &str)
        ensures
            final(self)@ == old(self)@.read_section(body@, home@),
    {
        if has_text(body, "@@NOMANIFEST@@") {
            self.note = "✗ no zpm.kdl manifest".to_owned();
        } else {
            self.read_manifest(body, home);
            self.note = self.verdict().to_owned();
        }
    }
}

impl Default for Managed {
    fn default() -> (r: Managed)
        ensures
            r@ == ManagedView::fresh(Seq::empty(), None, Seq::empty()),
    {
        Managed::new(String::new(), None, String::new())
    }
}

} // verus!
