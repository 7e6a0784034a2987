//! Errors of cloud transfers.
use vstd::prelude::*;

use crate::text::concat2;

verus! {

/// What kind of thing went wrong.
#[derive(Debug, Clone, Copy, PartialEq, Eq, Structural)]
pub enum ErrorCategory {
    Config,
    Network,
    Auth,
    NotFound,
    Forbidden,
    RateLimited,
    Internal,
    Cancelled,
}

/// An error of a cloud transfer.
#[derive(Debug)]
pub enum CloudSyncError {
    Config(String),
    Network(String),
    Auth(String),
    NotFound(String),
    Forbidden(String),
    RateLimited(String),
    Internal(String),
    Cancelled,
    Other(String),
}

/// What a `CloudSyncError` holds.
pub enum CloudErrorView {
    Config(Seq<char>),
    Network(Seq<char>),
    Auth(Seq<char>),
    NotFound(Seq<char>),
    Forbidden(Seq<char>),
    RateLimited(Seq<char>),
    Internal(Seq<char>),
    Cancelled,
    Other(Seq<char>),
}

impl View for CloudSyncError {
    type V = CloudErrorView;

    open spec fn view(&self) -> CloudErrorView {
        match self {
            CloudSyncError::Config(m) => CloudErrorView::Config(m@),
            CloudSyncError::Network(m) => CloudErrorView::Network(m@),
            CloudSyncError::Auth(m) => CloudErrorView::Auth(m@),
            CloudSyncError::NotFound(m) => CloudErrorView::NotFound(m@),
            CloudSyncError::Forbidden(m) => CloudErrorView::Forbidden(m@),
            CloudSyncError::RateLimited(m) => CloudErrorView::RateLimited(m@),
            CloudSyncError::Internal(m) => CloudErrorView::Internal(m@),
            CloudSyncError::Cancelled => CloudErrorView::Cancelled,
            CloudSyncError::Other(m) => CloudErrorView::Other(m@),
        }
    }
}

impl CloudErrorView {
    /// The category of the error.
    pub open spec fn category(self) -> ErrorCategory {
        match self {
            CloudErrorView::Config(_) => ErrorCategory::Config,
            CloudErrorView::Network(_) => ErrorCategory::Network,
            CloudErrorView::Auth(_) => ErrorCategory::Auth,
            CloudErrorView::NotFound(_) => ErrorCategory::NotFound,
            CloudErrorView::Forbidden(_) => ErrorCategory::Forbidden,
            CloudErrorView::RateLimited(_) => ErrorCategory::RateLimited,
            CloudErrorView::Cancelled => ErrorCategory::Cancelled,
            CloudErrorView::Internal(_) | CloudErrorView::Other(_) => ErrorCategory::Internal,
        }
    }

    /// The error as it is shown.
    pub open spec fn shown(self) -> Seq<char> {
        match self {
            CloudErrorView::Config(m) => "配置错误: "@ + m,
            CloudErrorView::Network(m) => "网络错误: "@ + m,
            CloudErrorView::Auth(m) => "鉴权失败: "@ + m,
            CloudErrorView::NotFound(m) => "资源不存在: "@ + m,
            CloudErrorView::Forbidden(m) => "权限拒绝: "@ + m,
            CloudErrorView::RateLimited(m) => "触发限流: "@ + m,
            CloudErrorView::Internal(m) => "内部错误: "@ + m,
            CloudErrorView::Cancelled => "用户取消"@,
            CloudErrorView::Other(m) => "未知错误: "@ + m,
        }
    }
}

/// What a failed access to the file system was about.
#[derive(Debug, Clone, Copy, PartialEq, Eq, Structural)]
pub enum FileErrorKind {
    NotFound,
    PermissionDenied,
    Other,
}

impl CloudSyncError {
    /// The category of the error.
    pub fn category(&self) -> (r: ErrorCategory)
        ensures
            r == self@.category(),
    {
        match self {
            CloudSyncError::Config(_) => ErrorCategory::Config,
            CloudSyncError::Network(_) => ErrorCategory::Network,
            CloudSyncError::Auth(_) => ErrorCategory::Auth,
            CloudSyncError::NotFound(_) => ErrorCategory::NotFound,
            CloudSyncError::Forbidden(_) => ErrorCategory::Forbidden,
            CloudSyncError::RateLimited(_) => ErrorCategory::RateLimited,
            CloudSyncError::Cancelled => ErrorCategory::Cancelled,
            _ => ErrorCategory::Internal,
        }
    }

    /// The error as it is shown.
    pub fn to_string(&self) -> (r: String)
        ensures
            r@ == self@.shown(),
    {
        match self {
            CloudSyncError::Config(m) => concat2("配置错误: ", m.as_str()),
            CloudSyncError::Network(m) => concat2("网络错误: ", m.as_str()),
            CloudSyncError::Auth(m) => concat2("鉴权失败: ", m.as_str()),
            CloudSyncError::NotFound(m) => concat2("资源不存在: ", m.as_str()),
            CloudSyncError::Forbidden(m) => concat2("权限拒绝: ", m.as_str()),
            CloudSyncError::RateLimited(m) => concat2("触发限流: ", m.as_str()),
            CloudSyncError::Internal(m) => concat2("内部错误: ", m.as_str()),
            CloudSyncError::Cancelled => "用户取消".to_owned(),
            CloudSyncError::Other(m) => concat2("未知错误: ", m.as_str()),
        }
    }

    /// A configuration error.
    pub fn config(m: &str) -> (r: Self)
        ensures
            r@ == CloudErrorView::Config(m@),
    {
        CloudSyncError::Config(m.to_owned())
    }

    /// A network error.
    pub fn network(m: &str) -> (r: Self)
        ensures
            r@ == CloudErrorView::Network(m@),
    {
        CloudSyncError::Network(m.to_owned())
    }

    /// A failed authentication.
    pub fn auth(m: &str) -> (r: Self)
        ensures
            r@ == CloudErrorView::Auth(m@),
    {
        CloudSyncError::Auth(m.to_owned())
    }

    /// A missing resource.
    pub fn not_found(m: &str) -> (r: Self)
        ensures
            r@ == CloudErrorView::NotFound(m@),
    {
        CloudSyncError::NotFound(m.to_owned())
    }

    /// A refused access.
    pub fn forbidden(m: &str) -> (r: Self)
        ensures
            r@ == CloudErrorView::Forbidden(m@),
    {
        CloudSyncError::Forbidden(m.to_owned())
    }

    /// A request refused because there were too many.
    pub fn rate_limited(m: &str) -> (r: Self)
        ensures
            r@ == CloudErrorView::RateLimited(m@),
    {
        CloudSyncError::RateLimited(m.to_owned())
    }

    /// An internal error.
    pub fn internal(m: &str) -> (r: Self)
        ensures
            r@ == CloudErrorView::Internal(m@),
    {
        CloudSyncError::Internal(m.to_owned())
    }

    /// The error for a failed access to the file system.
    pub fn of_file_error(kind: FileErrorKind, message: &str) -> (r: Self)
        ensures
            r@ == match kind {
                FileErrorKind::NotFound => CloudErrorView::NotFound(message@),
                FileErrorKind::PermissionDenied => CloudErrorView::Forbidden(message@),
                FileErrorKind::Other => CloudErrorView::Internal(message@),
            },
    {
        match kind {
            FileErrorKind::NotFound => CloudSyncError::not_found(message),
            FileErrorKind::PermissionDenied => CloudSyncError::forbidden(message),
            FileErrorKind::Other => CloudSyncError::internal(message),
        }
    }

    /// The error for a failed database access; `no_rows` when a query that owes a row gave none.
    pub fn of_database_error(no_rows: bool, message: &str) -> (r: Self)
        ensures
            r@ == if no_rows {
                CloudErrorView::NotFound("记录不存在"@)
            } else {
                CloudErrorView::Internal("数据库错误: "@ + message@)
            },
    {
        if no_rows {
            CloudSyncError::not_found("记录不存在")
        } else {
            CloudSyncError::Internal(concat2("数据库错误: ", message))
        }
    }

    /// The error for a value that could not be written as JSON or read from it.
    pub fn of_json_error(message: &str) -> (r: Self)
        ensures
            r@ == CloudErrorView::Internal("序列化错误: "@ + message@),
    {
        CloudSyncError::Internal(concat2("序列化错误: ", message))
    }
}

} // verus!
