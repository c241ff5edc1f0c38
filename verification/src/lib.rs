//! Editor-window discovery and state reconciliation for a macOS menu-bar
//! tab manager.
//!
//! The library holds the verified core: window naming from opaque title
//! strings, project-path resolution with caching, git branch lookup over a
//! directory model, a per-project assistant-status tracker, and idempotent
//! window-offset planning with a durable store.  All interaction with the
//! operating system (accessibility calls, file reads, timers) happens
//! outside this crate; the functions here take plain values describing what
//! was observed and return plain values describing what to do.

pub mod editor;
pub mod editor_config;
pub mod git;
pub mod json;
pub mod observer;
pub mod offset;
pub mod offset_codec;
pub mod percent;
pub mod status;
pub mod strutil;
pub mod title;
pub mod vscode;
