//! Configuration merging and worktree placement.
//! The per-repo `.worktree.toml` overrides the global `~/.config/wt/config.toml`.
use vstd::prelude::*;

use crate::paths::{file_name, file_name_of};
use crate::text::{chars_of, opt_str, opt_text, owned, replace, replace_of, string_of, strs};

verus! {

/// Worktree placement configuration.
#[derive(Debug, Clone)]
pub struct WorktreeCfg {
    /// Directory template; supports `{repo}` and `{name}`. May start with `~`.
    pub dir: Option<String>,
    /// Optional prefix prepended to branch names.
    pub branch_prefix: Option<String>,
}

/// Top-level configuration (the contents of `.worktree.toml`).
#[derive(Debug, Clone)]
pub struct Config {
    /// Files to copy from the main worktree into a new worktree.
    pub copy: Vec<String>,
    /// Shell commands to run inside a new worktree after creation.
    pub setup: Vec<String>,
    /// Worktree placement settings.
    pub worktrees: WorktreeCfg,
}

/// A configuration as plain character sequences.
pub struct ConfigView {
    pub copy: Seq<Seq<char>>,
    pub setup: Seq<Seq<char>>,
    pub dir: Option<Seq<char>>,
    pub branch_prefix: Option<Seq<char>>,
}

impl View for Config {
    type V = ConfigView;

    open spec fn view(&self) -> ConfigView {
        ConfigView {
            copy: strs(self.copy@),
            setup: strs(self.setup@),
            dir: opt_str(self.worktrees.dir),
            branch_prefix: opt_str(self.worktrees.branch_prefix),
        }
    }
}

impl Default for WorktreeCfg {
    fn default() -> (r: WorktreeCfg)
        ensures
            r.dir is None,
            r.branch_prefix is None,
    {
        WorktreeCfg { dir: None, branch_prefix: None }
    }
}

/// The configuration in force when no file says anything.
pub open spec fn default_view() -> ConfigView {
    ConfigView { copy: seq![], setup: seq![], dir: None, branch_prefix: None }
}

impl Default for Config {
    fn default() -> (r: Config)
        ensures
            r@ == default_view(),
    {
        let r = Config { copy: Vec::new(), setup: Vec::new(), worktrees: WorktreeCfg::default() };
        assert(strs(r.copy@) =~= Seq::<Seq<char>>::empty());
        assert(strs(r.setup@) =~= Seq::<Seq<char>>::empty());
        r
    }
}

/// `over` laid on top of `base`: each list that `over` gives (non-empty) and
/// each setting that `over` gives (present) replaces that of `base`.
pub open spec fn merge(base: ConfigView, over: ConfigView) -> ConfigView {
    ConfigView {
        copy: if over.copy.len() > 0 {
            over.copy
        } else {
            base.copy
        },
        setup: if over.setup.len() > 0 {
            over.setup
        } else {
            base.setup
        },
        dir: if over.dir is Some {
            over.dir
        } else {
            base.dir
        },
        branch_prefix: if over.branch_prefix is Some {
            over.branch_prefix
        } else {
            base.branch_prefix
        },
    }
}

impl Config {
    /// Merge `other` on top of `self` (per-repo overrides global).
    pub fn merge_with(self, other: Config) -> (r: Config)
        ensures
            r@ == merge(self@, other@),
            other@.dir matches Some(d) ==> r@.dir == Some(d),
            other@.dir is None ==> r@.dir == self@.dir,
            other@.branch_prefix matches Some(p) ==> r@.branch_prefix == Some(p),
            other@.branch_prefix is None ==> r@.branch_prefix == self@.branch_prefix,
            other@.copy.len() > 0 ==> r@.copy == other@.copy,
            other@.copy.len() == 0 ==> r@.copy == self@.copy,
            other@.setup.len() > 0 ==> r@.setup == other@.setup,
            other@.setup.len() == 0 ==> r@.setup == self@.setup,
    {
        let mut me = self;
        if !other.copy.is_empty() {
            me.copy = other.copy;
        }
        if !other.setup.is_empty() {
            me.setup = other.setup;
        }
        if other.worktrees.dir.is_some() {
            me.worktrees.dir = other.worktrees.dir;
        }
        if other.worktrees.branch_prefix.is_some() {
            me.worktrees.branch_prefix = other.worktrees.branch_prefix;
        }
        me
    }
}

/// The view of a configuration file's contents; `None` (a file that is missing
/// or cannot be read or parsed) counts as the default configuration.
pub open spec fn view_or_default(c: Option<Config>) -> ConfigView {
    match c {
        Some(c) => c@,
        None => default_view(),
    }
}

/// The configuration in force: the per-repo file merged over the global one.
/// A file that is missing, unreadable or unparsable counts as empty.
pub fn load(global: Option<Config>, local: Option<Config>) -> (r: Config)
    ensures
        r@ == merge(view_or_default(global), view_or_default(local)),
        view_or_default(local).dir matches Some(d) ==> r@.dir == Some(d),
        view_or_default(local).dir is None ==> r@.dir == view_or_default(global).dir,
        view_or_default(local).branch_prefix matches Some(p) ==> r@.branch_prefix == Some(p),
        view_or_default(local).branch_prefix is None ==> r@.branch_prefix == view_or_default(
            global,
        ).branch_prefix,
{
    let base = match global {
        Some(c) => c,
        None => Config::default(),
    };
    let over = match local {
        Some(c) => c,
        None => Config::default(),
    };
    base.merge_with(over)
}

/// The per-repo configuration overrides the global one: each setting it gives
/// (present) and each list it gives (non-empty) is the one in force, and every
/// other setting and list is the global one.
pub proof fn lemma_repo_overrides_global(global: ConfigView, repo: ConfigView)
    ensures
        repo.dir matches Some(d) ==> merge(global, repo).dir == Some(d),
        repo.dir is None ==> merge(global, repo).dir == global.dir,
        repo.branch_prefix matches Some(p) ==> merge(global, repo).branch_prefix == Some(p),
        repo.branch_prefix is None ==> merge(global, repo).branch_prefix == global.branch_prefix,
        repo.copy.len() > 0 ==> merge(global, repo).copy == repo.copy,
        repo.copy.len() == 0 ==> merge(global, repo).copy == global.copy,
        repo.setup.len() > 0 ==> merge(global, repo).setup == repo.setup,
        repo.setup.len() == 0 ==> merge(global, repo).setup == global.setup,
{
}

/// Merging onto the empty configuration changes nothing.
pub proof fn lemma_merge_onto_default(c: ConfigView)
    ensures
        merge(default_view(), c) == c,
{
    assert(merge(default_view(), c).copy =~= c.copy);
    assert(merge(default_view(), c).setup =~= c.setup);
}

/// Merging the empty configuration on top changes nothing.
pub proof fn lemma_merge_default_on_top(c: ConfigView)
    ensures
        merge(c, default_view()) == c,
{
}

/// Layering is associative: merging `b` then `c` onto `a` is merging onto `a`
/// the result of merging `c` onto `b`.
pub proof fn lemma_merge_associative(a: ConfigView, b: ConfigView, c: ConfigView)
    ensures
        merge(merge(a, b), c) == merge(a, merge(b, c)),
{
}

/// Merging a configuration onto itself changes nothing.
pub proof fn lemma_merge_idempotent(c: ConfigView)
    ensures
        merge(c, c) == c,
{
}

// ---------------------------------------------------------------------------
// Worktree placement
// ---------------------------------------------------------------------------

/// The directory template used when the configuration gives none.
pub open spec fn default_dir_template() -> Seq<char> {
    "~/worktrees/{repo}/{name}"@
}

/// The template in force for `cfg`.
pub open spec fn dir_template(cfg: ConfigView) -> Seq<char> {
    match cfg.dir {
        Some(d) => d,
        None => default_dir_template(),
    }
}

/// The repository name used for `{repo}`: the last component of the root path,
/// or `repo` when it has none.
pub open spec fn repo_name(root: Seq<char>) -> Seq<char> {
    repo_name_or_default(file_name_of(root))
}

/// `template` with `{repo}` replaced by `repo`, then `{name}` by `name`.
pub open spec fn expand(template: Seq<char>, repo: Seq<char>, name: Seq<char>) -> Seq<char> {
    replace(replace(template, "{repo}"@, repo), "{name}"@, name)
}

/// Tilde expansion as `shellexpand` documents it: a leading `~` that stands
/// alone or before `/` becomes the home directory, when one is known; any other
/// text is left as it is.
pub open spec fn expand_tilde(s: Seq<char>, home: Option<Seq<char>>) -> Seq<char> {
    match home {
        Some(h) => if s.len() > 0 && s[0] == '~' && (s.len() == 1 || s[1] == '/') {
            h + s.drop_first()
        } else {
            s
        },
        None => s,
    }
}

/// A leading `~` before a backslash, which `shellexpand` also expands when it
/// is built for Windows.
pub open spec fn tilde_backslash(s: Seq<char>) -> bool {
    s.len() > 1 && s[0] == '~' && s[1] == '\\'
}

/// What `shellexpand::tilde_with_context` gives for `s` with `home` as the home
/// directory: `expand_tilde(s, home)`, or, for a `~` before a backslash, the
/// home directory followed by the rest of `s`.
pub open spec fn tilde_outcome(s: Seq<char>, home: Option<Seq<char>>, r: Seq<char>) -> bool {
    ||| r == expand_tilde(s, home)
    ||| (tilde_backslash(s) && (home matches Some(h) && r == h + s.drop_first()))
}

/// Calls `shellexpand::tilde_with_context`, which puts the home directory in
/// place of a leading `~` that stands alone or before `/` (or, when built for
/// Windows, before a backslash), and leaves any other text as it is, as it does
/// when no home directory is known.
#[verifier::external_body]
fn expand_home(s: &str, home: Option<&str>) -> (r: String)
    ensures
        tilde_outcome(s@, opt_text(home), r@),
{
    shellexpand::tilde_with_context(s, || home).into_owned()
}

/// `template` with `{repo}` replaced by `repo`, then `{name}` by `name`.
pub fn expand_template(template: &str, repo: &str, name: &str) -> (r: String)
    ensures
        r@ == expand(template@, repo@, name@),
{
    let repo_p = chars_of("{repo}");
    let name_p = chars_of("{name}");
    proof {
        reveal_strlit("{repo}");
        reveal_strlit("{name}");
    }
    let step = replace_of(&chars_of(template), &repo_p, &chars_of(repo));
    string_of(&replace_of(&step, &name_p, &chars_of(name)))
}

/// The repository name used for `{repo}`, from the last component of the
/// repository root (`None` when it has none).
pub open spec fn repo_name_or_default(n: Option<Seq<char>>) -> Seq<char> {
    match n {
        Some(n) => n,
        None => "repo"@,
    }
}

/// The worktree directory before `~` expansion: the configured template (or
/// `~/worktrees/{repo}/{name}`) with `{repo}` and `{name}` replaced, where
/// `repo_file_name` is the last component of the repository root.
pub fn unexpanded_dir(cfg: &Config, repo_file_name: Option<String>, name: &str) -> (r: String)
    ensures
        r@ == expand(dir_template(cfg@), repo_name_or_default(opt_str(repo_file_name)), name@),
{
    let template = match &cfg.worktrees.dir {
        Some(d) => d.clone(),
        None => owned("~/worktrees/{repo}/{name}"),
    };
    let repo = match repo_file_name {
        Some(n) => n,
        None => owned("repo"),
    };
    expand_template(template.as_str(), repo.as_str(), name)
}

/// Resolve the worktree target directory from the configuration: the template
/// (or `~/worktrees/{repo}/{name}`) expanded with the repository name (the last
/// component of `repo_root`) and `name`, then with a leading `~` replaced by
/// `home`, the user's home directory when it is known.
pub fn resolve_dir(cfg: &Config, repo_root: &str, name: &str, home: Option<&str>) -> (r: String)
    ensures
        tilde_outcome(expand(dir_template(cfg@), repo_name(repo_root@), name@), opt_text(home), r@),
{
    let expanded = unexpanded_dir(cfg, file_name(repo_root), name);
    expand_home(expanded.as_str(), home)
}

} // verus!
