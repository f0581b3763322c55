//! Why a command is refused.

use vstd::prelude::*;

verus! {

/// Why a command is refused, with a message for the user.
#[derive(Debug)]
pub enum ApiError {
    /// The request makes no sense in the present state.
    Invalid(String),
    /// What the request names is not there.
    NotFound(String),
    /// The request is not allowed.
    Forbidden(String),
    /// Something else went wrong.
    Internal(String),
}

/// What an [`ApiError`] says.
pub ghost enum Refusal {
    Invalid(Seq<char>),
    NotFound(Seq<char>),
    Forbidden(Seq<char>),
    Internal(Seq<char>),
}

impl View for ApiError {
    type V = Refusal;

    open spec fn view(&self) -> Refusal {
        match self {
            ApiError::Invalid(m) => Refusal::Invalid(m@),
            ApiError::NotFound(m) => Refusal::NotFound(m@),
            ApiError::Forbidden(m) => Refusal::Forbidden(m@),
            ApiError::Internal(m) => Refusal::Internal(m@),
        }
    }
}

} // verus!
