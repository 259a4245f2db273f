//! Keeps one canonical set of agent rule files synchronized with the file
//! formats of three editor tools.
//!
//! The canonical representation lives in `.agentsync/rules/`; each tool reads
//! its own projection of the same rules.  The crate holds the frontmatter
//! codec, the activation-mode inference that maps tool fields onto one
//! unified mode, the path-safety checks, and the diff engine that classifies
//! every rule-file pair as added, updated, skipped or errored.

pub mod commands;
pub mod config;
pub mod converter;
pub mod error;
pub mod fs;
pub mod models;
pub mod parser;
pub mod processor;
pub mod security;
pub mod sync;
pub mod text;

pub use error::AgentSyncError;
