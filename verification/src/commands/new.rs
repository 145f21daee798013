//! `wt new <name>`: create a new worktree.
use vstd::prelude::*;

use crate::config::{dir_template, expand, repo_name, resolve_dir, tilde_outcome, Config, ConfigView};
use crate::text::{opt_text, owned};

verus! {

/// What `new` does: the worktree to add and the steps that follow.
pub struct NewPlan {
    /// The new branch.
    pub branch: String,
    /// The ref the branch starts from.
    pub base: String,
    /// The directory of the new worktree.
    pub target: String,
    /// Copy the configured files into it.
    pub copy: bool,
    /// Run the configured setup commands in it.
    pub setup: bool,
}

/// The branch for a worktree named `name`: the override, or the configured
/// prefix (none by default) followed by the name.
pub open spec fn branch_for(cfg: ConfigView, name: Seq<char>, over: Option<Seq<char>>) -> Seq<char> {
    match over {
        Some(b) => b,
        None => match cfg.branch_prefix {
            Some(p) => p + name,
            None => name,
        },
    }
}

/// The ref a new branch starts from: the one asked for, else the default
/// branch, else `HEAD` (when the default branch could not be found).
pub open spec fn base_for(from: Option<Seq<char>>, default_branch: Option<Seq<char>>) -> Seq<char> {
    match from {
        Some(f) => f,
        None => match default_branch {
            Some(d) => d,
            None => "HEAD"@,
        },
    }
}

/// The ref asked for with `--from` is the base, whatever the default branch
/// is or whether it was looked up; without it the default branch is, and
/// `HEAD` only when that is unknown too.
pub proof fn lemma_from_wins(f: Seq<char>, d: Option<Seq<char>>, e: Seq<char>)
    ensures
        base_for(Some(f), d) == f,
        base_for(None, Some(e)) == e,
        base_for(None, None) == "HEAD"@,
{
}

/// An explicit branch name is used as it is; otherwise the branch is the
/// configured prefix (if any) followed by the worktree's name.
pub proof fn lemma_branch_naming(cfg: ConfigView, name: Seq<char>, b: Seq<char>)
    ensures
        branch_for(cfg, name, Some(b)) == b,
        cfg.branch_prefix matches Some(p) ==> branch_for(cfg, name, None) == p + name,
        cfg.branch_prefix is None ==> branch_for(cfg, name, None) == name,
{
}

/// Plans the creation of the worktree `name` under the main worktree `main`.
/// `default_branch` is what the default branch was found to be, where it was
/// looked up (it is only needed without `from`); `home` is the user's home
/// directory, when it is known.
pub fn run(
    cfg: &Config,
    main: &str,
    name: &str,
    from: Option<&str>,
    branch_override: Option<&str>,
    default_branch: Option<&str>,
    no_setup: bool,
    no_copy: bool,
    home: Option<&str>,
) -> (plan: NewPlan)
    ensures
        plan.branch@ == branch_for(cfg@, name@, opt_text(branch_override)),
        plan.base@ == base_for(opt_text(from), opt_text(default_branch)),
        from matches Some(f) ==> plan.base@ == f@,
        from is None ==> (default_branch matches Some(d) ==> plan.base@ == d@),
        from is None && default_branch is None ==> plan.base@ == "HEAD"@,
        branch_override matches Some(b) ==> plan.branch@ == b@,
        branch_override is None ==> plan.branch@ == match cfg@.branch_prefix {
            Some(p) => p + name@,
            None => name@,
        },
        tilde_outcome(
            expand(dir_template(cfg@), repo_name(main@), name@),
            opt_text(home),
            plan.target@,
        ),
        plan.copy == (!no_copy && cfg@.copy.len() > 0),
        plan.setup == (!no_setup && cfg@.setup.len() > 0),
{
    let branch = match branch_override {
        Some(b) => owned(b),
        None => match &cfg.worktrees.branch_prefix {
            Some(p) => {
                let mut b = p.clone();
                b.append(name);
                b
            },
            None => owned(name),
        },
    };
    let base = match from {
        Some(f) => owned(f),
        None => match default_branch {
            Some(d) => owned(d),
            None => owned("HEAD"),
        },
    };
    let target = resolve_dir(cfg, main, name, home);
    NewPlan {
        branch,
        base,
        target,
        copy: !no_copy && !cfg.copy.is_empty(),
        setup: !no_setup && !cfg.setup.is_empty(),
    }
}

} // verus!
