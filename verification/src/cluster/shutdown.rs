//! Outcome of a cascade shutdown.
//!
//! Every layer stops taking work, shuts its children down without giving up at
//! the first error, cleans up by force what does not stop in time, and reports
//! what went wrong. A second shutdown of a layer reports nothing.

use vstd::prelude::*;

verus! {

/// Graceful-shutdown budget of one layer, in milliseconds.
pub const DEFAULT_SHUTDOWN_TIMEOUT_MS: u64 = 10_000;

/// Errors of a cascade shutdown. None means that every layer stopped
/// gracefully and in time.
#[derive(Debug)]
pub struct ShutdownReport {
    pub errors: Vec<String>,
}

impl ShutdownReport {
    pub fn new() -> (r: Self)
        ensures
            r.errors@ == Seq::<String>::empty(),
    {
        ShutdownReport { errors: Vec::new() }
    }

    /// Whether nothing went wrong.
    pub fn is_clean(&self) -> (r: bool)
        ensures
            r == (self.errors@.len() == 0),
    {
        self.errors.is_empty()
    }

    /// Add one error.
    pub fn push_error(&mut self, msg: String)
        ensures
            final(self).errors@ == old(self).errors@.push(msg),
    {
        self.errors.push(msg);
    }

    /// Add the errors of another report behind those of this one.
    pub fn merge(&mut self, other: ShutdownReport)
        ensures
            final(self).errors@ == old(self).errors@ + other.errors@,
    {
        let mut more = other.errors;
        self.errors.append(&mut more);
    }
}

/// A merged report is clean exactly when both parts are, and merging three
/// reports gives the same errors in whichever order of grouping.
pub proof fn merged_report_is_clean_iff_both_are(
    a: ShutdownReport,
    b: ShutdownReport,
    c: ShutdownReport,
)
    ensures
        (a.errors@ + b.errors@).len() == 0 <==> a.errors@.len() == 0 && b.errors@.len() == 0,
        (a.errors@ + b.errors@) + c.errors@ == a.errors@ + (b.errors@ + c.errors@),
{
    assert((a.errors@ + b.errors@) + c.errors@ =~= a.errors@ + (b.errors@ + c.errors@));
}

} // verus!
