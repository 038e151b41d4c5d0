//! Core of a keystroke-driven application launcher.
//!
//! Independent plugins (clock, git repositories, installed applications)
//! each own a set of searchable entries. A controller merges the live
//! entry sets of all registered plugins into one ranked, navigable list,
//! fans search queries out to every plugin through bounded mailboxes,
//! and routes activation to the plugin that owns the selected entry.

pub mod model;
pub mod text;
pub mod filter;
pub mod mailbox;
pub mod worker;
pub mod controller;
pub mod clock;
pub mod git;
pub mod apps;
