//! Answers about cloud transfers.
use vstd::prelude::*;

use crate::cloud_sync::error::{CloudErrorView, CloudSyncError, ErrorCategory};
use crate::cloud_sync::types::Connection;

verus! {

/// An answer to a request that was served.
#[derive(Debug)]
pub struct ApiResponse<T> {
    pub success: bool,
    pub data: T,
    pub error: Option<String>,
}

impl<T> ApiResponse<T> {
    /// The answer with some data.
    pub fn success(data: T) -> (r: Self)
        ensures
            r == (ApiResponse { success: true, data, error: None }),
    {
        ApiResponse { success: true, data, error: None }
    }
}

/// An answer to a request that was not served.
#[derive(Debug)]
pub enum ApiError {
    BadRequest(String),
    NotFound(String),
    Internal(String),
}

/// What an `ApiError` says.
pub enum ApiErrorView {
    BadRequest(Seq<char>),
    NotFound(Seq<char>),
    Internal(Seq<char>),
}

impl View for ApiError {
    type V = ApiErrorView;

    open spec fn view(&self) -> ApiErrorView {
        match self {
            ApiError::BadRequest(m) => ApiErrorView::BadRequest(m@),
            ApiError::NotFound(m) => ApiErrorView::NotFound(m@),
            ApiError::Internal(m) => ApiErrorView::Internal(m@),
        }
    }
}

/// How an error of a cloud transfer is answered.
pub open spec fn answer_to(e: CloudErrorView) -> ApiErrorView {
    match e.category() {
        ErrorCategory::Config
        | ErrorCategory::Auth
        | ErrorCategory::Forbidden
        | ErrorCategory::Cancelled => ApiErrorView::BadRequest(e.shown()),
        ErrorCategory::NotFound => ApiErrorView::NotFound(e.shown()),
        ErrorCategory::Network | ErrorCategory::RateLimited | ErrorCategory::Internal =>
            ApiErrorView::Internal(e.shown()),
    }
}

/// How an error of a cloud transfer is answered.
pub fn map_err(e: CloudSyncError) -> (r: ApiError)
    ensures
        r@ == answer_to(e@),
{
    let msg = e.to_string();
    match e.category() {
        ErrorCategory::Config
        | ErrorCategory::Auth
        | ErrorCategory::Forbidden
        | ErrorCategory::Cancelled => ApiError::BadRequest(msg),
        ErrorCategory::NotFound => ApiError::NotFound(msg),
        _ => ApiError::Internal(msg),
    }
}

/// The manager of cloud transfers, where there is one.
pub fn get_manager<M>(manager: Option<M>) -> (r: Result<M, ApiError>)
    ensures
        match (manager, r) {
            (Some(m), Ok(n)) => n == m,
            (None, Err(e)) => e@ == ApiErrorView::BadRequest("云同步管理器未初始化"@),
            _ => false,
        },
{
    match manager {
        Some(m) => Ok(m),
        None => Err(ApiError::BadRequest("云同步管理器未初始化".to_owned())),
    }
}

/// The answer with what was done, or the error.
pub fn reply<T>(result: Result<T, CloudSyncError>) -> (r: Result<ApiResponse<T>, ApiError>)
    ensures
        match (result, r) {
            (Ok(data), Ok(a)) => a == (ApiResponse { success: true, data, error: None }),
            (Err(e), Err(a)) => a@ == answer_to(e@),
            _ => false,
        },
{
    match result {
        Ok(data) => Ok(ApiResponse::success(data)),
        Err(e) => Err(map_err(e)),
    }
}

/// The connection that was asked for, or the error.
pub fn found_connection(result: Result<Option<Connection>, CloudSyncError>) -> (r: Result<
    Connection,
    ApiError,
>)
    ensures
        match (result, r) {
            (Ok(Some(c)), Ok(d)) => d == c,
            (Ok(None), Err(a)) => a@ == ApiErrorView::NotFound("连接不存在"@),
            (Err(e), Err(a)) => a@ == answer_to(e@),
            _ => false,
        },
{
    match result {
        Ok(Some(c)) => Ok(c),
        Ok(None) => Err(ApiError::NotFound("连接不存在".to_owned())),
        Err(e) => Err(map_err(e)),
    }
}

/// Which objects are asked for.
#[derive(Debug)]
pub struct ListObjectsQuery {
    pub prefix: Option<String>,
}

impl ListObjectsQuery {
    /// The prefix that is asked for; the empty one, where none is named.
    pub fn prefix_or_empty(self) -> (r: String)
        ensures
            r@ == match self.prefix {
                Some(p) => p@,
                None => Seq::<char>::empty(),
            },
    {
        match self.prefix {
            Some(p) => p,
            None => String::new(),
        }
    }
}

/// No error of a cloud transfer is answered in silence: the answer shows the error.
pub proof fn law_answer_shows_the_error(e: CloudErrorView)
    ensures
        answer_to(e) == ApiErrorView::BadRequest(e.shown()) || answer_to(e)
            == ApiErrorView::NotFound(e.shown()) || answer_to(e) == ApiErrorView::Internal(
            e.shown(),
        ),
        answer_to(e) is NotFound <==> e is NotFound,
{
}

} // verus!
