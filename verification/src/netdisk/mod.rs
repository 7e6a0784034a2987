//! The network disk.
pub mod json;
pub mod recent_watcher;
pub mod share;
