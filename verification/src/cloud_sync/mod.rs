//! Transfers between storage services.
pub mod error;
pub mod events;
pub mod types;
pub mod signing;
pub mod xml;
pub mod storage;
pub mod persistence;
pub mod manager;
pub mod job_run;
