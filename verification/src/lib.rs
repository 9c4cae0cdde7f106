//! Usage accounting for coding-agent sessions: discovery of session logs,
//! change detection, tolerant parsing, and merging into a usage ledger.

pub mod cache;
pub mod clock;
pub mod codex_import;
pub mod discovery;
pub mod display;
pub mod json;
pub mod laws;
pub mod ledger;
pub mod models;
pub mod selection;
pub mod session;
pub mod text;
