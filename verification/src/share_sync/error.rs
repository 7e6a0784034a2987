//! Errors of share synchronisation.
use vstd::prelude::*;

verus! {

/// An error of share synchronisation.
#[derive(Debug)]
pub enum ShareSyncError {
    ShareLinkError(String),
    ConfigError(String),
    TransferError(String),
    DownloadError(String),
    FileSystemError(String),
    Internal(String),
    AlreadyRunning(String),
    SubscriptionNotFound(String),
    SubscriptionExists(String),
}

/// What a `ShareSyncError` says.
pub enum ErrorView {
    ShareLinkError(Seq<char>),
    ConfigError(Seq<char>),
    TransferError(Seq<char>),
    DownloadError(Seq<char>),
    FileSystemError(Seq<char>),
    Internal(Seq<char>),
    AlreadyRunning(Seq<char>),
    SubscriptionNotFound(Seq<char>),
    SubscriptionExists(Seq<char>),
}

impl View for ShareSyncError {
    type V = ErrorView;

    open spec fn view(&self) -> ErrorView {
        match self {
            ShareSyncError::ShareLinkError(m) => ErrorView::ShareLinkError(m@),
            ShareSyncError::ConfigError(m) => ErrorView::ConfigError(m@),
            ShareSyncError::TransferError(m) => ErrorView::TransferError(m@),
            ShareSyncError::DownloadError(m) => ErrorView::DownloadError(m@),
            ShareSyncError::FileSystemError(m) => ErrorView::FileSystemError(m@),
            ShareSyncError::Internal(m) => ErrorView::Internal(m@),
            ShareSyncError::AlreadyRunning(m) => ErrorView::AlreadyRunning(m@),
            ShareSyncError::SubscriptionNotFound(m) => ErrorView::SubscriptionNotFound(m@),
            ShareSyncError::SubscriptionExists(m) => ErrorView::SubscriptionExists(m@),
        }
    }
}

} // verus!
