//! The application's errors and the messages they are reported with.

use vstd::prelude::*;
use crate::text::prefixed;

verus! {

/// Every error the application reports.
///
/// `IoError` and `JsonError` carry the message of the I/O or JSON error that
/// caused them; they are reported with that message alone.
#[derive(Debug)]
pub enum AppError {
    Unknown,
    MissingAppHandle,
    StoreOpen(String),
    StoreSave(String),
    AuthMissingHeader,
    AuthJwtInvalid(String),
    HttpBind(String),
    IoError(String),
    JsonError(String),
}

/// The message an error is reported with.
pub open spec fn app_error_message(e: AppError) -> Seq<char> {
    match e {
        AppError::Unknown => "Unknown error"@,
        AppError::MissingAppHandle => "Missing app handle"@,
        AppError::StoreOpen(m) => "Store open error: "@ + m@,
        AppError::StoreSave(m) => "Store save error: "@ + m@,
        AppError::AuthMissingHeader => "Missing authentication header 'x-openinbrowser-auth'"@,
        AppError::AuthJwtInvalid(m) => "Invalid JWT authentication: "@ + m@,
        AppError::HttpBind(m) => "HTTP server bind error: "@ + m@,
        AppError::IoError(m) => m@,
        AppError::JsonError(m) => m@,
    }
}

impl AppError {
    /// The message this error is reported with.
    pub fn message(&self) -> (r: String)
        ensures
            r@ == app_error_message(*self),
    {
        match self {
            AppError::Unknown => String::from_str("Unknown error"),
            AppError::MissingAppHandle => String::from_str("Missing app handle"),
            AppError::StoreOpen(m) => prefixed("Store open error: ", m.as_str()),
            AppError::StoreSave(m) => prefixed("Store save error: ", m.as_str()),
            AppError::AuthMissingHeader => String::from_str(
                "Missing authentication header 'x-openinbrowser-auth'",
            ),
            AppError::AuthJwtInvalid(m) => prefixed("Invalid JWT authentication: ", m.as_str()),
            AppError::HttpBind(m) => prefixed("HTTP server bind error: ", m.as_str()),
            AppError::IoError(m) => m.clone(),
            AppError::JsonError(m) => m.clone(),
        }
    }
}

/// A bare message becomes an `Unknown` error.
impl From<String> for AppError {
    fn from(_error: String) -> (r: AppError) {
        AppError::Unknown
    }
}

impl vstd::std_specs::convert::FromSpecImpl<String> for AppError {
    open spec fn obeys_from_spec() -> bool {
        true
    }

    open spec fn from_spec(v: String) -> AppError {
        AppError::Unknown
    }
}

} // verus!
