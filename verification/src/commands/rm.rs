//! `wt rm <name>`: remove a worktree, and on request its branch.
use vstd::prelude::*;

use crate::commands::lookup::{entry_names, find, first_answering, lemma_first_answering, names_of};
use crate::error::WtError;
use crate::git::{WorktreeEntry, WorktreeStatus};
use crate::paths::file_name_of;
use crate::text::owned;

verus! {

/// What happens to the branch once the worktree is gone.
pub enum BranchAction {
    /// `git branch -D` this branch.
    Delete(String),
    /// The worktree had a detached `HEAD`: there is no branch to delete.
    WarnDetached,
    /// The branch stays.
    Keep,
}

/// The removal of one worktree.
pub struct RmPlan {
    /// The path of the worktree to remove.
    pub path: String,
    /// Whether the worktree must be checked for uncommitted changes first.
    pub check_clean: bool,
    /// What to do about its branch afterwards.
    pub branch: BranchAction,
}

/// Plans the removal of the first worktree whose last path component is `name`.
/// Without `force` its status is checked first; with `delete_branch` its branch
/// is deleted afterwards, when it has one.
pub fn run(entries: &Vec<WorktreeEntry>, name: &str, force: bool, delete_branch: bool) -> (r:
    Result<RmPlan, WtError>)
    ensures
        match first_answering(names_of(entries@), name@, false) {
            Some(k) => r matches Ok(plan) && plan.path@ == entries@[k as int].path@
                && plan.check_clean == !force && (if !delete_branch {
                plan.branch is Keep
            } else {
                match entries@[k as int].branch {
                    Some(b) => plan.branch matches BranchAction::Delete(d) && d@ == b@,
                    None => plan.branch is WarnDetached,
                }
            }),
            None => r matches Err(WtError::NotFound { name: n }) && n@ == name@,
        },
        r matches Ok(plan) ==> exists|k: int|
            0 <= k < entries@.len() && plan.path@ == entries@[k].path@ && #[trigger] file_name_of(
                entries@[k].path@,
            ) == Some(name@),
        (forall|k: int|
            0 <= k < entries@.len() ==> #[trigger] file_name_of(entries@[k].path@) != Some(name@))
            ==> r matches Err(WtError::NotFound { .. }),
{
    let names = entry_names(entries);
    match find(&names, name, false) {
        Some(k) => {
            proof {
                lemma_first_answering(names_of(entries@), name@, false);
                assert(names_of(entries@)[k as int] == file_name_of(entries@[k as int].path@));
            }
            let entry = &entries[k];
            let branch = if !delete_branch {
                BranchAction::Keep
            } else {
                match &entry.branch {
                    Some(b) => BranchAction::Delete(b.clone()),
                    None => BranchAction::WarnDetached,
                }
            };
            Ok(RmPlan { path: entry.path.clone(), check_clean: !force, branch })
        },
        None => Err(WtError::NotFound { name: owned(name) }),
    }
}

/// The check made before removing a worktree without `force`: one with
/// uncommitted changes is refused.
pub fn confirm(name: &str, status: &WorktreeStatus) -> (r: Result<(), WtError>)
    ensures
        status.dirty ==> (r matches Err(WtError::Dirty { name: n }) && n@ == name@),
        !status.dirty ==> r is Ok,
{
    if status.dirty {
        Err(WtError::Dirty { name: owned(name) })
    } else {
        Ok(())
    }
}

} // verus!
