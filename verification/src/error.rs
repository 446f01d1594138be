//! The application error taxonomy and its mapping to HTTP status codes.

use vstd::prelude::*;

verus! {

/// Application-level errors. Each variant carries a fixed HTTP status,
/// given by [`AppError::status_code`].
#[derive(Debug)]
pub enum AppError {
    NotFound(String),
    BadRequest(String),
    Internal(String),
    Unauthorized,
}

impl AppError {
    /// The HTTP status code associated with this error kind.
    pub open spec fn spec_status_code(&self) -> u16 {
        match self {
            AppError::NotFound(_) => 404,
            AppError::BadRequest(_) => 400,
            AppError::Internal(_) => 500,
            AppError::Unauthorized => 401,
        }
    }

    /// Get the HTTP status code for this error.
    pub fn status_code(&self) -> (code: u16)
        ensures
            code == self.spec_status_code(),
    {
        match self {
            AppError::NotFound(_) => 404,
            AppError::BadRequest(_) => 400,
            AppError::Internal(_) => 500,
            AppError::Unauthorized => 401,
        }
    }
}

} // verus!
