//! How deep a listing goes.

use crate::common::api::ApiError;
use crate::common::scan::{number, parse_number};
use crate::common::text::{concat3, dec, decimal};
use crate::console::config::about;
use vstd::prelude::*;
use vstd::string::*;

verus! {

/// The deepest that a listing goes.
pub const MAX_DEPTH: u64 = 8;

/// How many levels below its own a listing shows.
#[derive(Clone, Copy, Debug, PartialEq, Eq, Structural)]
pub enum RecursiveDepth {
    /// None at all.
    Flat,
    /// So many, at least one and at most [`MAX_DEPTH`].
    Levels(u64),
    All,
}

/// The text is `all`, in whichever case.
pub open spec fn says_all(s: Seq<char>) -> bool {
    &&& s.len() == 3
    &&& s[0] == 'a' || s[0] == 'A'
    &&& s[1] == 'l' || s[1] == 'L'
    &&& s[2] == 'l' || s[2] == 'L'
}

impl RecursiveDepth {
    /// The depth is within bounds.
    pub open spec fn wf(self) -> bool {
        self matches RecursiveDepth::Levels(n) ==> 0 < n <= MAX_DEPTH
    }

    /// The depth that a query asks for: none if it says nothing.
    pub fn parse(text: Option<&str>) -> (r: Result<RecursiveDepth, ApiError>)
        ensures
            r matches Ok(d) ==> d.wf(),
            match text {
                None => r == Ok::<RecursiveDepth, ApiError>(RecursiveDepth::Flat),
                Some(s) => if says_all(s@) {
                    r == Ok::<RecursiveDepth, ApiError>(RecursiveDepth::All)
                } else {
                    match number(s@, u64::MAX as nat) {
                        None => r matches Err(e) && e.says(
                            400,
                            about("recursive: '"@, s@, "' is not an integer or \"all\""@),
                        ),
                        Some(n) => if n == 0 {
                            r == Ok::<RecursiveDepth, ApiError>(RecursiveDepth::Flat)
                        } else if n <= MAX_DEPTH {
                            r == Ok::<RecursiveDepth, ApiError>(RecursiveDepth::Levels(n as u64))
                        } else {
                            r matches Err(e) && e.says(
                                400,
                                about("recursive: "@, dec(n), " exceeds maximum 8"@),
                            )
                        },
                    }
                },
            },
    {
        let s: &str = match text {
            Some(s) => s,
            None => {
                return Ok(RecursiveDepth::Flat);
            },
        };
        if s.unicode_len() == 3 {
            let a: char = s.get_char(0);
            let b: char = s.get_char(1);
            let c: char = s.get_char(2);
            if (a == 'a' || a == 'A') && (b == 'l' || b == 'L') && (c == 'l' || c == 'L') {
                return Ok(RecursiveDepth::All);
            }
        }
        match parse_number(s, u64::MAX) {
            None => Err(
                ApiError {
                    status: 400,
                    error: concat3("recursive: '", s, "' is not an integer or \"all\""),
                },
            ),
            Some(n) => if n == 0 {
                Ok(RecursiveDepth::Flat)
            } else if n <= MAX_DEPTH {
                Ok(RecursiveDepth::Levels(n))
            } else {
                let shown: String = decimal(n);
                Err(
                    ApiError {
                        status: 400,
                        error: concat3("recursive: ", shown.as_str(), " exceeds maximum 8"),
                    },
                )
            },
        }
    }

    /// The number of levels that are shown at most.
    pub open spec fn levels(self) -> u64 {
        match self {
            RecursiveDepth::Flat => 0,
            RecursiveDepth::Levels(n) => n,
            RecursiveDepth::All => MAX_DEPTH,
        }
    }

    /// The number of levels that are shown at most.
    pub fn effective(self) -> (n: u64)
        requires
            self.wf(),
        ensures
            n == self.levels(),
            n <= MAX_DEPTH,
    {
        match self {
            RecursiveDepth::Flat => 0,
            RecursiveDepth::Levels(n) => n,
            RecursiveDepth::All => MAX_DEPTH,
        }
    }
}

/// A listing goes as many levels down as it is asked to, none if it is asked
/// for none, and never further than if it is asked for all.
pub proof fn all_is_the_deepest(d: RecursiveDepth)
    requires
        d.wf(),
    ensures
        d.levels() <= RecursiveDepth::All.levels(),
        d.levels() == 0 <==> d is Flat,
        d matches RecursiveDepth::Levels(n) ==> d.levels() == n,
{
}

} // verus!
