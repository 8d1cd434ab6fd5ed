//! How requests are refused.

use vstd::prelude::*;

verus! {

/// A refused request.
#[derive(Debug)]
pub struct ApiError {
    pub status: u16,
    pub error: String,
}

impl ApiError {
    /// The error has this status and says this.
    pub open spec fn says(self, status: u16, text: Seq<char>) -> bool {
        self.status == status && self.error@ == text
    }
}

} // verus!
