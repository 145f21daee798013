//! `wt init`: write a `.worktree.toml` template to the repository root.
use vstd::prelude::*;

use crate::error::WtError;
use crate::text::owned;

verus! {

/// The configuration file that `init` writes.
pub const TEMPLATE: &'static str = r#"copy = [".env", ".env.local"]
setup = ["pnpm install"]

[worktrees]
dir = "~/worktrees/{repo}/{name}"
branch_prefix = ""
"#;

/// What `init` writes to `dest`: the template, unless `dest` exists and
/// `force` is off, which is an error.
pub fn run(dest: &str, exists: bool, force: bool) -> (r: Result<&'static str, WtError>)
    ensures
        exists && !force ==> (r matches Err(WtError::AlreadyExists { path }) && path@ == dest@),
        !(exists && !force) ==> (r matches Ok(t) && t@ == TEMPLATE@),
{
    if exists && !force {
        Err(WtError::AlreadyExists { path: owned(dest) })
    } else {
        Ok(TEMPLATE)
    }
}

} // verus!
