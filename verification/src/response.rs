//! The uniform response envelope `{ code, message, body }`: status codes
//! with their default messages, error replies and success replies.
use vstd::prelude::*;
use crate::text::owned;

verus! {

#[verifier::external_type_specification]
#[verifier::external_body]
pub struct ExJsonValue(serde_json::Value);

/// The status codes the API answers with.
#[derive(Debug, Clone, Copy, PartialEq, Eq, Structural)]
pub enum ApiCode {
    Success,
    BadRequest,
    Unauthorized,
    NotFound,
    Internal,
}

/// The HTTP status number of a code.
pub open spec fn code_number(c: ApiCode) -> u16 {
    match c {
        ApiCode::Success => 200,
        ApiCode::BadRequest => 400,
        ApiCode::Unauthorized => 401,
        ApiCode::NotFound => 404,
        ApiCode::Internal => 500,
    }
}

/// The default message of a code.
pub open spec fn code_message(c: ApiCode) -> Seq<char> {
    match c {
        ApiCode::Success => "success"@,
        ApiCode::BadRequest => "参数错误"@,
        ApiCode::Unauthorized => "未授权"@,
        ApiCode::NotFound => "资源不存在"@,
        ApiCode::Internal => "服务器内部错误"@,
    }
}

impl ApiCode {
    /// The HTTP status number (200 / 400 / 401 / 404 / 500).
    pub fn code(&self) -> (res: u16)
        ensures
            res == code_number(*self),
    {
        match self {
            ApiCode::Success => 200,
            ApiCode::BadRequest => 400,
            ApiCode::Unauthorized => 401,
            ApiCode::NotFound => 404,
            ApiCode::Internal => 500,
        }
    }

    /// The default message; a caller can replace it with
    /// [`ApiError::with_msg`].
    pub fn default_message(&self) -> (res: &'static str)
        ensures
            res@ == code_message(*self),
    {
        match self {
            ApiCode::Success => "success",
            ApiCode::BadRequest => "参数错误",
            ApiCode::Unauthorized => "未授权",
            ApiCode::NotFound => "资源不存在",
            ApiCode::Internal => "服务器内部错误",
        }
    }
}

/// A failed response: its code and message (the body is always empty).
pub struct ApiError {
    code: ApiCode,
    message: String,
}

impl ApiError {
    /// An error with `code` and a message that replaces the code's default.
    pub fn with_msg(code: ApiCode, message: String) -> (res: Self)
        ensures
            res.code_view() == code,
            res.message_view() == message@,
    {
        ApiError { code, message }
    }

    /// The error's code.
    pub closed spec fn code_view(&self) -> ApiCode {
        self.code
    }

    /// The error's message.
    pub closed spec fn message_view(&self) -> Seq<char> {
        self.message@
    }

    /// The error's code.
    pub fn api_code(&self) -> (res: ApiCode)
        ensures
            res == self.code_view(),
    {
        self.code
    }

    /// The error's message.
    pub fn message(&self) -> (res: &String)
        ensures
            res@ == self.message_view(),
    {
        &self.message
    }

    /// The envelope the error is answered with: its code, its message and no
    /// body.
    pub fn to_result<T>(&self) -> (res: ApiResult<T>)
        ensures
            res.code == code_number(self.code_view()),
            res.message@ == self.message_view(),
            res.body is None,
    {
        ApiResult { code: self.code.code(), message: self.message.clone(), body: None }
    }
}

/// The response envelope.
pub struct ApiResult<T> {
    pub code: u16,
    pub message: String,
    pub body: Option<T>,
}

impl<T> ApiResult<T> {
    /// A success envelope carrying `body`.
    pub fn ok(body: T) -> (res: Self)
        ensures
            res.code == 200,
            res.message@ == "success"@,
            res.body == Some(body),
    {
        ApiResult {
            code: ApiCode::Success.code(),
            message: owned(ApiCode::Success.default_message()),
            body: Some(body),
        }
    }
}

/// A success envelope without a body (the health check's answer).
pub fn ok_empty() -> (res: ApiResult<serde_json::Value>)
    ensures
        res.code == 200,
        res.message@ == "success"@,
        res.body is None,
{
    ApiResult {
        code: ApiCode::Success.code(),
        message: owned(ApiCode::Success.default_message()),
        body: None,
    }
}

} // verus!
