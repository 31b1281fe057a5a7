use vstd::prelude::*;

use crate::engine::EngineError;

verus! {

/// Failures at the HTTP edge.
#[derive(Debug)]
pub enum AppError {
    Engine(EngineError),
    BadRequest(String),
    NotFound(String),
    Forbidden,
    MissingToken,
    InvalidToken,
}

/// The HTTP status of an error.
pub open spec fn status_of(e: AppError) -> u16 {
    match e {
        AppError::Engine(EngineError::TaskNotFound(_)) => 404,
        AppError::Engine(EngineError::InvalidTransition { .. }) => 400,
        AppError::Engine(EngineError::TaskTerminal(_)) => 400,
        AppError::Engine(EngineError::Store(_)) => 500,
        AppError::BadRequest(_) => 400,
        AppError::NotFound(_) => 404,
        AppError::Forbidden => 403,
        AppError::MissingToken => 401,
        AppError::InvalidToken => 401,
    }
}

impl AppError {
    /// The HTTP status of the error: 404 for a missing task, 400 for a bad
    /// request, an illegal transition or a publish to a terminal task, 403
    /// when forbidden, 401 without a valid token, 500 for store failures.
    pub fn status_code(&self) -> (r: u16)
        ensures
            r == status_of(*self),
    {
        match self {
            AppError::Engine(EngineError::TaskNotFound(_)) => 404,
            AppError::Engine(EngineError::InvalidTransition { .. }) => 400,
            AppError::Engine(EngineError::TaskTerminal(_)) => 400,
            AppError::Engine(EngineError::Store(_)) => 500,
            AppError::BadRequest(_) => 400,
            AppError::NotFound(_) => 404,
            AppError::Forbidden => 403,
            AppError::MissingToken => 401,
            AppError::InvalidToken => 401,
        }
    }
}

} // verus!
