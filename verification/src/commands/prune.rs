//! `wt prune`: report what `git worktree prune` did.
use vstd::prelude::*;

use crate::text::owned;

verus! {

/// The report printed for the output of `git worktree prune --verbose`.
pub fn run(out: &str) -> (m: String)
    ensures
        out@.len() == 0 ==> m@ == "nothing to prune"@,
        out@.len() > 0 ==> m@ == out@,
{
    if out.is_empty() {
        owned("nothing to prune")
    } else {
        owned(out)
    }
}

} // verus!
