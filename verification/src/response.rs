//! The uniform response envelope: a success flag, the stable application
//! code, a message, and the payload — absent on failures.
use vstd::prelude::*;
use vstd::string::StringExecFns;
use crate::error::{AppCode, AppError};

verus! {

/// One response envelope, parameterized by the payload type.
#[derive(Debug)]
pub struct APIResponse<T> {
    pub success: bool,
    pub code: i32,
    pub message: String,
    pub data: Option<T>,
}

impl<T> APIResponse<T> {
    /// A successful envelope around `data`, with the success code and its
    /// fixed message.
    pub fn success(data: T) -> (r: APIResponse<T>)
        ensures
            r.success == true,
            r.code == AppCode::Success.code_spec(),
            r.message@ == AppCode::Success.message_spec(),
            r.data == Some(data),
    {
        APIResponse {
            success: true,
            code: AppCode::Success.code(),
            message: AppCode::Success.message().to_owned(),
            data: Some(data),
        }
    }

    /// A successful envelope around `data` with a custom message.
    pub fn success_with_message(data: T, message: String) -> (r: APIResponse<T>)
        ensures
            r.success == true,
            r.code == AppCode::Success.code_spec(),
            r.message@ == message@,
            r.data == Some(data),
    {
        APIResponse { success: true, code: AppCode::Success.code(), message, data: Some(data) }
    }

    /// A failure envelope: the error's stable code, the given message, and
    /// no payload.
    pub fn error(code: AppError, message: String) -> (r: APIResponse<()>)
        ensures
            r.success == false,
            r.code == code.code_spec(),
            r.message@ == message@,
            r.data is None,
    {
        APIResponse { success: false, code: code.code(), message, data: None }
    }
}

} // verus!
