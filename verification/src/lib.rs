//! A plugin manager for the zellij terminal workspace, in the manner of tpm: the plugins that are
//! wanted stand in one manifest, and every session start realizes it, with clones, permissions and
//! live keybinds.
//!
//! This library is the manager's logic. It touches nothing: the host hands it events, and it
//! answers with the effects that the host is to perform.
//!
//! - [`state`] says what comes of every event, as a state machine over mathematical models;
//!   [`manager`] holds the handlers that do it, and [`laws`] what holds of it as a whole.
//! - [`host`] holds what passes between the two sides, and [`verb`] what can be asked for.
//! - [`manifest`] reads the manifests, [`plugin`] keeps what they say of a plugin, and [`script`]
//!   writes the shell scripts of a run's steps.
//! - [`text`] holds the operations on texts that these need.
pub mod host;
pub mod laws;
pub mod manager;
pub mod manifest;
pub mod manifest_laws;
pub mod plugin;
pub mod plugin_laws;
pub mod script;
pub mod state;
pub mod text;
pub mod text_laws;
pub mod verb;
