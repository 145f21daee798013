//! `wt`, a git worktree manager: what its commands decide, and how it reads
//! what git prints.
pub mod commands;
pub mod config;
pub mod error;
pub mod git;
pub mod paths;
pub mod style;
pub mod text;
