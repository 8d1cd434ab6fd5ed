//! Liveness of the console.

use vstd::prelude::*;

verus! {

/// The console is alive as long as it answers.
pub fn healthz() -> (s: &'static str)
    ensures
        s@ == "ok"@,
{
    "ok"
}

} // verus!
