//! The errors that the ping service answers with.
use vstd::prelude::*;
use vstd::string::*;

verus! {

#[derive(Debug)]
pub enum ApiError {
    InvalidHost(String),
    InvalidPort,
    ConnectionFailed(String),
}

pub type ApiResult<T> = Result<T, ApiError>;

/// The HTTP status that answers an error.
pub open spec fn error_status(e: ApiError) -> u16 {
    match e {
        ApiError::InvalidHost(_) => 400,
        ApiError::InvalidPort => 400,
        ApiError::ConnectionFailed(_) => 503,
    }
}

/// The message that an error's response carries.
pub open spec fn error_message(e: ApiError) -> Seq<char> {
    match e {
        ApiError::InvalidHost(m) => m@,
        ApiError::InvalidPort => "Invalid port number"@,
        ApiError::ConnectionFailed(m) => m@,
    }
}

impl ApiError {
    /// The HTTP status and message of the response to this error (the body
    /// is `{"error": message, "online": false}`).
    pub fn into_status_and_message(self) -> (res: (u16, String))
        ensures
            res.0 == error_status(self),
            res.1@ == error_message(self),
    {
        match self {
            ApiError::InvalidHost(msg) => (400, msg),
            ApiError::InvalidPort => (400, String::from_str("Invalid port number")),
            ApiError::ConnectionFailed(msg) => (503, msg),
        }
    }
}

} // verus!
