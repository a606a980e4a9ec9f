//! `slu search` - find the commits where a string was added or removed (git
//! pickaxe), with the files, the lines, and the branches that hold each
//! commit, in one repo or every repo under the current one. What is decided
//! here: the report's order, and what is said about commits past the limit.

use crate::num::{decimal, decimal_of};
use crate::text::{chars_of, concat, string_of, Named};
use vstd::prelude::*;

verus! {

/// One repo's block of the report.
pub struct Found {
    pub name: String,
    pub text: String,
}

impl Named for Found {
    open spec fn name_of(&self) -> Seq<char> {
        self.name@
    }

    fn name(&self) -> (s: &str) {
        self.name.as_str()
    }
}

/// The line under a repo's block when it matched more commits than are
/// shown: how many more, and the limit that shows them all.
pub open spec fn more_of(total: nat, limit: nat) -> Option<Seq<char>> {
    if total > limit {
        Some(
            "↳ "@ + decimal((total - limit) as nat) + " more — use -l "@ + decimal(total)
                + " to see all"@,
        )
    } else {
        None
    }
}

pub fn more_note(total: usize, limit: usize) -> (r: Option<String>)
    ensures
        match r {
            Some(s) => more_of(total as nat, limit as nat) == Some(s@),
            None => more_of(total as nat, limit as nat) is None,
        },
{
    if total > limit {
        let v = concat(
            &concat(
                &concat(&concat(&chars_of("↳ "), &decimal_of((total - limit) as u64)), &chars_of(
                    " more — use -l ",
                )),
                &decimal_of(total as u64),
            ),
            &chars_of(" to see all"),
        );
        Some(string_of(&v))
    } else {
        None
    }
}

} // verus!
