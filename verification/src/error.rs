//! How a request can fail.
use crate::json::{Json, JsonView};
use vstd::prelude::*;

verus! {

/// Why a request is refused.
#[derive(Debug, PartialEq, Eq)]
pub enum ApiError {
    /// What was asked for does not exist.
    NotFound(String),
    /// The request is not one that can be answered.
    BadRequest(String),
}

/// Why a request is refused, with the message as a text.
pub enum ApiErrorView {
    NotFound(Seq<char>),
    BadRequest(Seq<char>),
}

impl View for ApiError {
    type V = ApiErrorView;

    open spec fn view(&self) -> ApiErrorView {
        match self {
            ApiError::NotFound(message) => ApiErrorView::NotFound(message@),
            ApiError::BadRequest(message) => ApiErrorView::BadRequest(message@),
        }
    }
}

/// An answer or a refusal, by what it stands for.
pub open spec fn outcome(r: Result<Json, ApiError>) -> Result<JsonView, ApiErrorView> {
    match r {
        Ok(json) => Ok(json@),
        Err(e) => Err(e@),
    }
}

/// The refusal of a request for a page that does not exist.
pub open spec fn no_such_page() -> ApiErrorView {
    ApiErrorView::NotFound("wiki page not found"@)
}

/// The refusal of a request for a page that does not exist.
pub fn page_not_found() -> (r: ApiError)
    ensures
        r@ == no_such_page(),
{
    ApiError::NotFound("wiki page not found".to_owned())
}

/// A refusal tells its kind and its message, and an answer the value that it is.
pub proof fn law_outcome_is_told(json: Json, message: String)
    ensures
        outcome(Ok(json)) == Ok::<JsonView, ApiErrorView>(json@),
        outcome(Err(ApiError::NotFound(message))) == Err::<JsonView, ApiErrorView>(
            ApiErrorView::NotFound(message@),
        ),
        outcome(Err(ApiError::BadRequest(message))) == Err::<JsonView, ApiErrorView>(
            ApiErrorView::BadRequest(message@),
        ),
{
}

} // verus!
