pub mod adapter;
pub mod date;
pub mod gateway;
pub mod models;
pub mod ranking;
pub mod decimal;
pub mod text;
pub mod validate;

use vstd::prelude::*;

verus! {

/// Errors surfaced by the data-access layer, one variant per failure class.
#[derive(Clone, Debug, PartialEq, Eq)]
pub enum ApiError {
    Transport,
    Service,
    Decode,
    Parse,
    Validation,
}

/// Flattens an error to the human-readable string shown by the presentation
/// layer.
pub fn err_to_string(err: &ApiError) -> (r: String)
    ensures
        r@ == err_message(*err),
{
    match err {
        ApiError::Transport => "transport failure".to_string(),
        ApiError::Service => "service rejected the request".to_string(),
        ApiError::Decode => "response did not match the expected shape".to_string(),
        ApiError::Parse => "input could not be parsed".to_string(),
        ApiError::Validation => "not a valid input".to_string(),
    }
}

pub open spec fn err_message(err: ApiError) -> Seq<char> {
    match err {
        ApiError::Transport => "transport failure"@,
        ApiError::Service => "service rejected the request"@,
        ApiError::Decode => "response did not match the expected shape"@,
        ApiError::Parse => "input could not be parsed"@,
        ApiError::Validation => "not a valid input"@,
    }
}

} // verus!
