//! Core of a chat bot: a live status tracker for commands run in a sandbox,
//! recognition of bot commands, and a write-back queue of usage statistics with
//! its flush engine and report.

pub mod command;
pub mod error;
pub mod exec_status;
pub mod format;
pub mod report;
pub mod sandbox;
pub mod stats;
pub mod stats_kind;
pub mod text;
