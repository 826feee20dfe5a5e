//! The service's error kinds and how each one reaches a client.
use vstd::prelude::*;

verus! {

#[derive(Debug)]
pub enum AppError {
    NotFound(String),
    BadRequest(String),
    Unauthorized(String),
    Qdrant(String),
    Embedder(String),
    Internal(String),
}

impl AppError {
    /// The HTTP status that the error answers with.
    pub fn status_code(&self) -> (r: u16)
        ensures
            r == (match self {
                AppError::NotFound(_) => 404u16,
                AppError::BadRequest(_) => 400u16,
                AppError::Unauthorized(_) => 401u16,
                _ => 500u16,
            }),
    {
        match self {
            AppError::NotFound(_) => 404,
            AppError::BadRequest(_) => 400,
            AppError::Unauthorized(_) => 401,
            AppError::Qdrant(_) => 500,
            AppError::Embedder(_) => 500,
            AppError::Internal(_) => 500,
        }
    }

    pub open spec fn message_view(&self) -> Seq<char> {
        match self {
            AppError::NotFound(m) => m@,
            AppError::BadRequest(m) => m@,
            AppError::Unauthorized(m) => m@,
            AppError::Qdrant(m) => m@,
            AppError::Embedder(m) => m@,
            AppError::Internal(m) => m@,
        }
    }

    /// The one descriptive message that a client is shown.
    pub fn message(&self) -> (r: String)
        ensures
            r@ == self.message_view(),
    {
        match self {
            AppError::NotFound(m) => m.clone(),
            AppError::BadRequest(m) => m.clone(),
            AppError::Unauthorized(m) => m.clone(),
            AppError::Qdrant(m) => m.clone(),
            AppError::Embedder(m) => m.clone(),
            AppError::Internal(m) => m.clone(),
        }
    }
}

} // verus!
