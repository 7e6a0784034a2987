//! Synchronisation of shares.
pub mod activity;
pub mod capture;
pub mod config;
pub mod diff;
pub mod error;
pub mod events;
pub mod manager;
pub mod paths;
pub mod patterns;
pub mod restart;
pub mod resume;
pub mod run;
pub mod scan;
pub mod snapshot;
pub mod startup;
pub mod submit;
pub mod subtasks;
pub mod sync_run;
pub mod target_paths;
pub mod wait;
