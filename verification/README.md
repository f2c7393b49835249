# lvim-zpm

A plugin manager for [zellij](https://zellij.dev), in the manner of tpm: declare the plugins you
want in one manifest, and every session start realizes it, with clones, permissions and live
keybinds. The logic is a library that is verified with [Verus](https://github.com/verus-lang/verus).

- `src/` is the library. It touches nothing: events go in, and effects for the host come out.
  - `state.rs` says what comes of every event; `manager.rs` holds the handlers that do it.
  - `host.rs`, `verb.rs`: what passes between host and manager, and what can be asked for.
  - `manifest.rs`, `plugin.rs`, `script.rs`: the manifests, what they say of a plugin, and the shell
    scripts of a run's steps.
  - `text.rs`: the operations on texts.
  - `laws.rs`, `manifest_laws.rs`, `plugin_laws.rs`, `text_laws.rs`: what holds of it all. Among
    others: runs are serialized, the configuration file is never written, status and check only
    look, status tells what is applied, a client that attaches gets back the keybinds that the last
    run applied, and every plugin's manifest reaches that plugin, whoever else bears its name.
- `app/` is the zellij plugin around it. It hands the events over and performs the effects.
- `tests/` runs the library.
