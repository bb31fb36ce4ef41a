//! The error taxonomy of the service and its mapping to a transport status
//! code and a short machine-readable message.

use vstd::prelude::*;

verus! {

/// Body returned to a client when a request fails: a short error tag,
/// never internal detail.
#[derive(Debug)]
pub struct ErrorResponse {
    pub error: String,
}

/// Everything that can go wrong while serving a request.
///
/// `Database` and `Redis` stand for an unavailable backing store; the
/// remaining variants classify the request itself.
#[derive(Debug)]
pub enum AppError {
    Database,
    Redis,
    Internal,
    Unauthorized,
    Forbidden,
    NotFound,
    Conflict,
    Validation(String),
    BadRequest(String),
    RateLimit,
    Timeout,
}

impl AppError {
    /// The transport status code each variant maps to.
    pub open spec fn spec_status(&self) -> u16 {
        match self {
            AppError::Database => 500,
            AppError::Redis => 500,
            AppError::Internal => 500,
            AppError::Unauthorized => 401,
            AppError::Forbidden => 403,
            AppError::NotFound => 404,
            AppError::Conflict => 409,
            AppError::Validation(_) => 422,
            AppError::BadRequest(_) => 400,
            AppError::RateLimit => 429,
            AppError::Timeout => 408,
        }
    }

    /// The message shown to the client: a fixed tag per variant, except that
    /// validation and bad-request failures echo their own description.
    pub open spec fn spec_message(&self) -> Seq<char> {
        match self {
            AppError::Database => "Database error"@,
            AppError::Redis => "Redis error"@,
            AppError::Internal => "Internal server error"@,
            AppError::Unauthorized => "Unathorized"@,
            AppError::Forbidden => "Forbidden"@,
            AppError::NotFound => "Not Found"@,
            AppError::Conflict => "Conflict"@,
            AppError::Validation(msg) => msg@,
            AppError::BadRequest(msg) => msg@,
            AppError::RateLimit => "Too many requests"@,
            AppError::Timeout => "Request timeout"@,
        }
    }

    pub fn status_code(&self) -> (s: u16)
        ensures
            s == self.spec_status(),
    {
        match self {
            AppError::Database => 500,
            AppError::Redis => 500,
            AppError::Internal => 500,
            AppError::Unauthorized => 401,
            AppError::Forbidden => 403,
            AppError::NotFound => 404,
            AppError::Conflict => 409,
            AppError::Validation(_) => 422,
            AppError::BadRequest(_) => 400,
            AppError::RateLimit => 429,
            AppError::Timeout => 408,
        }
    }

    pub fn message(&self) -> (m: String)
        ensures
            m@ == self.spec_message(),
    {
        match self {
            AppError::Database => String::from_str("Database error"),
            AppError::Redis => String::from_str("Redis error"),
            AppError::Internal => String::from_str("Internal server error"),
            AppError::Unauthorized => String::from_str("Unathorized"),
            AppError::Forbidden => String::from_str("Forbidden"),
            AppError::NotFound => String::from_str("Not Found"),
            AppError::Conflict => String::from_str("Conflict"),
            AppError::Validation(msg) => msg.clone(),
            AppError::BadRequest(msg) => msg.clone(),
            AppError::RateLimit => String::from_str("Too many requests"),
            AppError::Timeout => String::from_str("Request timeout"),
        }
    }

    /// The full response a failed request turns into: status code plus body.
    pub fn to_response(&self) -> (r: (u16, ErrorResponse))
        ensures
            r.0 == self.spec_status(),
            r.1.error@ == self.spec_message(),
    {
        (self.status_code(), ErrorResponse { error: self.message() })
    }
}

} // verus!
