//! Downloads.
pub mod progress;
pub mod task;
