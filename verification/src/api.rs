//! The generic JSON envelope of API answers.
use vstd::prelude::*;

verus! {

/// An API answer: whether it succeeded, its data and a message.
pub struct ApiResponse<T> {
    pub success: bool,
    pub data: Option<T>,
    pub message: Option<String>,
}

} // verus!
