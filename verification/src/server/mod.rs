//! What the HTTP interface answers.
pub mod cloud_sync;
pub mod folder_download;
