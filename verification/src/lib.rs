//! Keeps what git ignores out of the Time Machine backups.
pub mod cache;
pub mod commands;
pub mod config;
pub mod diff;
pub mod duration;
pub mod facts;
pub mod git;
pub mod human_time;
pub mod import;
pub mod laws;
pub mod legacy_cache;
pub mod legacy_config;
pub mod order;
pub mod path;
pub mod path_cache;
pub mod report;
pub mod shell;
pub mod sort;
pub mod sorted_set;
pub mod text;
pub mod timemachine;
pub mod whitelist;
