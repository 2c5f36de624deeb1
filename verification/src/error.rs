//! The application's error type and the HTTP status each variant is
//! answered with. Rendering the JSON response and logging happen in the
//! server.

use vstd::prelude::*;

use crate::text::{push_text, string_of};

verus! {

/// Single application error type that converts into a JSON response.
/// Specific failure modes carry their HTTP status; `Other` carries the
/// message of an internal failure.
#[derive(Debug)]
pub enum AppError {
    NotFound,
    BadRequest(String),
    Unauthorised,
    Conflict(String),
    Other(String),
}

/// The HTTP status code of each error.
pub open spec fn status_code(e: AppError) -> u16 {
    match e {
        AppError::NotFound => 404,
        AppError::BadRequest(_) => 400,
        AppError::Unauthorised => 401,
        AppError::Conflict(_) => 409,
        AppError::Other(_) => 500,
    }
}

/// The text of each error, as shown in the response body.
pub open spec fn error_text(e: AppError) -> Seq<char> {
    match e {
        AppError::NotFound => "not found"@,
        AppError::BadRequest(m) => "bad request: "@ + m@,
        AppError::Unauthorised => "unauthorised"@,
        AppError::Conflict(m) => "conflict: "@ + m@,
        AppError::Other(m) => m@,
    }
}

impl AppError {
    /// The HTTP status the error is answered with.
    pub fn status(&self) -> (r: u16)
        ensures
            r == status_code(*self),
    {
        match self {
            AppError::NotFound => 404,
            AppError::BadRequest(_) => 400,
            AppError::Unauthorised => 401,
            AppError::Conflict(_) => 409,
            AppError::Other(_) => 500,
        }
    }

    /// The error's message.
    pub fn message(&self) -> (r: String)
        ensures
            r@ == error_text(*self),
    {
        let mut v: Vec<char> = Vec::new();
        match self {
            AppError::NotFound => push_text(&mut v, "not found"),
            AppError::BadRequest(m) => {
                push_text(&mut v, "bad request: ");
                push_text(&mut v, m.as_str());
            },
            AppError::Unauthorised => push_text(&mut v, "unauthorised"),
            AppError::Conflict(m) => {
                push_text(&mut v, "conflict: ");
                push_text(&mut v, m.as_str());
            },
            AppError::Other(m) => push_text(&mut v, m.as_str()),
        }
        string_of(v.as_slice())
    }

    /// Server errors (5xx) are logged as errors; bad requests and
    /// conflicts as warnings; the rest at debug level.
    pub fn is_server_error(&self) -> (r: bool)
        ensures
            r == (500 <= status_code(*self) < 600),
    {
        let s = self.status();
        500 <= s && s < 600
    }
}

} // verus!
