//! Verified core of a pane switcher plugin: most-recently-used pane history,
//! cycling through it, attention ordering of agent panes, the binary state
//! file, and the decisions taken on environment values and host replies.

pub mod text;
pub mod actions;
pub mod state;
pub mod seqs;
pub mod json;
pub mod herdr;
pub mod env;
pub mod bench;
pub mod plugin;
pub mod support;
pub mod mock;
