//! The stock request model and file selector.

use vstd::prelude::*;

pub mod file_dispatcher;

verus! {

/// What a dispatch reads of a request: its method and the path of its URI.
#[derive(Debug, Clone)]
pub struct DefaultRequest {
    pub method: String,
    pub uri_path: String,
}

} // verus!
