//! `wt path <name>` and `wt cd <name>`: the absolute path of a worktree.
use vstd::prelude::*;

use crate::commands::lookup::{entry_names, find, first_answering, names_of};
use crate::error::WtError;
use crate::git::WorktreeEntry;
use crate::paths::file_name_of;
use crate::text::owned;

verus! {

/// The path of the first worktree whose last path component is `name` (a path
/// without one counts as the empty name), among `entries` as `git worktree list`
/// gives them.
pub fn run(entries: &Vec<WorktreeEntry>, name: &str) -> (r: Result<String, WtError>)
    ensures
        match first_answering(names_of(entries@), name@, true) {
            Some(k) => r matches Ok(p) && p@ == entries@[k as int].path@,
            None => r matches Err(WtError::NotFound { name: n }) && n@ == name@,
        },
        r matches Ok(p) ==> exists|k: int|
            0 <= k < entries@.len() && p@ == entries@[k].path@ && (#[trigger] file_name_of(
                entries@[k].path@,
            ) == Some(name@) || (file_name_of(entries@[k].path@) is None && name@.len() == 0)),
        (forall|k: int|
            0 <= k < entries@.len() ==> #[trigger] file_name_of(entries@[k].path@) != Some(name@)
                && !(file_name_of(entries@[k].path@) is None && name@.len() == 0)) ==> r is Err,
{
    let names = entry_names(entries);
    match find(&names, name, true) {
        Some(k) => {
            proof {
                crate::commands::lookup::lemma_first_answering(names_of(entries@), name@, true);
                assert(names_of(entries@)[k as int] == file_name_of(entries@[k as int].path@));
            }
            Ok(entries[k].path.clone())
        },
        None => Err(WtError::NotFound { name: owned(name) }),
    }
}

} // verus!
