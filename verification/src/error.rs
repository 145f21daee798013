//! The errors of the worktree manager and the messages it reports for them.
use vstd::prelude::*;

use crate::text::{join, join_of, strs};

verus! {

/// Everything that can go wrong in a command.
#[derive(Debug)]
pub enum WtError {
    /// A git command exited with a failure status.
    GitFailed { args: Vec<String>, stderr: String },
    /// `git worktree prune` exited with a failure status.
    PruneFailed { stderr: String },
    /// `git worktree list` reported no worktree at all.
    NoWorktrees,
    /// No worktree carries the requested name.
    NotFound { name: String },
    /// `init` would overwrite an existing configuration file.
    AlreadyExists { path: String },
    /// `rm` refused a worktree with uncommitted changes.
    Dirty { name: String },
    /// `setup` found neither files to copy nor commands to run.
    NothingConfigured,
}

impl WtError {
    /// The message the command line tool prints for this error.
    pub open spec fn message_spec(&self) -> Seq<char> {
        match self {
            WtError::GitFailed { args, stderr } => "git "@ + join(strs(args@), " "@) + " failed: "@
                + stderr@,
            WtError::PruneFailed { stderr } => "git worktree prune failed: "@ + stderr@,
            WtError::NoWorktrees => "no worktrees found"@,
            WtError::NotFound { name } => "worktree '"@ + name@ + "' not found"@,
            WtError::AlreadyExists { path } => path@ + " already exists. Use --force to overwrite."@,
            WtError::Dirty { name } => "worktree '"@ + name@
                + "' has uncommitted changes. Use --force to remove anyway."@,
            WtError::NothingConfigured => "no copy or setup commands configured"@,
        }
    }

    /// The message the command line tool prints for this error.
    pub fn message(&self) -> (m: String)
        ensures
            m@ == self.message_spec(),
    {
        match self {
            WtError::GitFailed { args, stderr } => {
                let mut m = String::from_str("git ");
                let joined = join_of(args, " ");
                m.append(joined.as_str());
                m.append(" failed: ");
                m.append(stderr.as_str());
                m
            },
            WtError::PruneFailed { stderr } => {
                let mut m = String::from_str("git worktree prune failed: ");
                m.append(stderr.as_str());
                m
            },
            WtError::NoWorktrees => String::from_str("no worktrees found"),
            WtError::NotFound { name } => {
                let mut m = String::from_str("worktree '");
                m.append(name.as_str());
                m.append("' not found");
                m
            },
            WtError::AlreadyExists { path } => {
                let mut m = String::from_str(path.as_str());
                m.append(" already exists. Use --force to overwrite.");
                m
            },
            WtError::Dirty { name } => {
                let mut m = String::from_str("worktree '");
                m.append(name.as_str());
                m.append("' has uncommitted changes. Use --force to remove anyway.");
                m
            },
            WtError::NothingConfigured => String::from_str("no copy or setup commands configured"),
        }
    }
}

} // verus!
