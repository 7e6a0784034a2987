//! Share synchronisation and cloud transfer for a network disk.
pub mod cloud_sync;
pub mod collections;
pub mod downloader;
pub mod ids;
pub mod netdisk;
pub mod numbers;
pub mod registry;
pub mod server;
pub mod share_sync;
pub mod sorting;
pub mod text;
pub mod time;
pub mod transfer;
