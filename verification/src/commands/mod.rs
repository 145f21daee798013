//! The subcommands of the worktree manager: what each one decides, given what
//! git and the filesystem reported.
pub mod init;
pub mod lookup;
pub mod ls;
pub mod new;
pub mod path;
pub mod prune;
pub mod rm;
pub mod setup;
pub mod shellinit;
