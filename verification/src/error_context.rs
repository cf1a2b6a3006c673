//! The context for the error template.

use vstd::prelude::*;

verus! {

/// The context for the error template.
#[derive(Debug)]
pub struct ErrorContext {
    /// The title of the page.
    pub title: String,
    /// The error message.
    pub message: String,
}

} // verus!
