//! The request-level errors: what the endpoints reject and with which HTTP
//! status.

use vstd::prelude::*;

verus! {

/// An error carried to the HTTP surface with its message.
#[derive(Debug)]
pub enum HttpError {
    BadRequest(String),
    InternalServerError(String),
}

impl HttpError {
    /// The HTTP status code this error maps to.
    pub fn get_status(&self) -> (r: u16)
        ensures
            r == (match self {
                HttpError::BadRequest(_) => 400u16,
                HttpError::InternalServerError(_) => 500u16,
            }),
    {
        match self {
            HttpError::BadRequest(_) => 400,
            HttpError::InternalServerError(_) => 500,
        }
    }
}

/// Why a generate request was rejected: a non-positive count, a domain token
/// that is not a 64-bit unsigned number (the first such token is carried),
/// or a domain beyond the layout's range. All three map to `400 bad request`
/// at the HTTP surface.
#[derive(Debug)]
pub enum RequestError {
    InvalidCount,
    InvalidDomainToken(Vec<u8>),
    IncorrectDomain(u64),
}

} // verus!
