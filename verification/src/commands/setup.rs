//! `wt setup <name>`: re-run the copy and setup steps for an existing worktree.
use vstd::prelude::*;

use crate::commands::lookup::{entry_names, find, first_answering, lemma_first_answering, names_of};
use crate::config::Config;
use crate::error::WtError;
use crate::git::WorktreeEntry;
use crate::paths::file_name_of;
use crate::text::owned;

verus! {

/// The path of the first worktree whose last path component is `name`.
pub fn run(entries: &Vec<WorktreeEntry>, name: &str) -> (r: Result<String, WtError>)
    ensures
        match first_answering(names_of(entries@), name@, false) {
            Some(k) => r matches Ok(p) && p@ == entries@[k as int].path@,
            None => r matches Err(WtError::NotFound { name: n }) && n@ == name@,
        },
        r matches Ok(p) ==> exists|k: int|
            0 <= k < entries@.len() && p@ == entries@[k].path@ && #[trigger] file_name_of(
                entries@[k].path@,
            ) == Some(name@),
        (forall|k: int|
            0 <= k < entries@.len() ==> #[trigger] file_name_of(entries@[k].path@) != Some(name@))
            ==> r matches Err(WtError::NotFound { .. }),
{
    let names = entry_names(entries);
    match find(&names, name, false) {
        Some(k) => {
            proof {
                lemma_first_answering(names_of(entries@), name@, false);
                assert(names_of(entries@)[k as int] == file_name_of(entries@[k as int].path@));
            }
            Ok(entries[k].path.clone())
        },
        None => Err(WtError::NotFound { name: owned(name) }),
    }
}

/// Which steps the configuration asks for.
pub struct Steps {
    /// Copy the configured files.
    pub copy: bool,
    /// Run the configured setup commands.
    pub setup: bool,
}

/// The steps `setup` runs: copying when files are configured, the commands
/// when commands are configured; an error when neither is.
pub fn steps(cfg: &Config) -> (r: Result<Steps, WtError>)
    ensures
        cfg@.copy.len() == 0 && cfg@.setup.len() == 0 ==> r matches Err(WtError::NothingConfigured),
        cfg@.copy.len() > 0 || cfg@.setup.len() > 0 ==> (r matches Ok(s) && s.copy == (cfg@.copy.len()
            > 0) && s.setup == (cfg@.setup.len() > 0)),
{
    if cfg.copy.is_empty() && cfg.setup.is_empty() {
        Err(WtError::NothingConfigured)
    } else {
        Ok(Steps { copy: !cfg.copy.is_empty(), setup: !cfg.setup.is_empty() })
    }
}

} // verus!
