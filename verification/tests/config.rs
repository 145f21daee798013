use wt::config::{expand_template, load, resolve_dir, unexpanded_dir, Config, WorktreeCfg};

fn cfg(copy: &[&str], setup: &[&str], dir: Option<&str>, prefix: Option<&str>) -> Config {
    Config {
        copy: copy.iter().map(|s| s.to_string()).collect(),
        setup: setup.iter().map(|s| s.to_string()).collect(),
        worktrees: WorktreeCfg {
            dir: dir.map(|s| s.to_string()),
            branch_prefix: prefix.map(|s| s.to_string()),
        },
    }
}

#[test]
fn merge_with_lets_the_repo_override() {
    let global = cfg(&[".env"], &["make"], Some("~/wt/{name}"), Some("me/"));
    let local = cfg(&[], &["pnpm install"], None, Some(""));
    let merged = global.merge_with(local);
    assert_eq!(merged.copy, vec![".env"]);
    assert_eq!(merged.setup, vec!["pnpm install"]);
    assert_eq!(merged.worktrees.dir.as_deref(), Some("~/wt/{name}"));
    assert_eq!(merged.worktrees.branch_prefix.as_deref(), Some(""));
}

#[test]
fn merge_with_default_changes_nothing() {
    let c = cfg(&["a"], &["b"], Some("/d"), None);
    let merged = c.merge_with(Config::default());
    assert_eq!(merged.copy, vec!["a"]);
    assert_eq!(merged.setup, vec!["b"]);
    assert_eq!(merged.worktrees.dir.as_deref(), Some("/d"));
    assert_eq!(merged.worktrees.branch_prefix, None);
    let merged = Config::default().merge_with(cfg(&["a"], &[], None, Some("p")));
    assert_eq!(merged.copy, vec!["a"]);
    assert!(merged.setup.is_empty());
    assert_eq!(merged.worktrees.branch_prefix.as_deref(), Some("p"));
}

#[test]
fn merge_is_associative_on_an_example() {
    let a = || cfg(&["a"], &["a"], Some("/a"), None);
    let b = || cfg(&[], &["b"], None, Some("b"));
    let c = || cfg(&["c"], &[], Some("/c"), None);
    let left = a().merge_with(b()).merge_with(c());
    let right = a().merge_with(b().merge_with(c()));
    assert_eq!(left.copy, right.copy);
    assert_eq!(left.setup, right.setup);
    assert_eq!(left.worktrees.dir, right.worktrees.dir);
    assert_eq!(left.worktrees.branch_prefix, right.worktrees.branch_prefix);
}

#[test]
fn load_treats_missing_files_as_empty() {
    let c = load(None, Some(cfg(&[".env"], &[], None, None)));
    assert_eq!(c.copy, vec![".env"]);
    assert!(c.setup.is_empty());
    let c = load(Some(cfg(&[], &["x"], Some("/g"), None)), None);
    assert_eq!(c.setup, vec!["x"]);
    assert_eq!(c.worktrees.dir.as_deref(), Some("/g"));
    let c = load(None, None);
    assert!(c.copy.is_empty() && c.setup.is_empty());
    assert!(c.worktrees.dir.is_none() && c.worktrees.branch_prefix.is_none());
}

#[test]
fn expand_template_replaces_repo_then_name() {
    assert_eq!(expand_template("~/worktrees/{repo}/{name}", "app", "fix"), "~/worktrees/app/fix");
    assert_eq!(expand_template("/x/{name}-{name}", "r", "n"), "/x/n-n");
    // a repository name holding `{name}` is expanded again
    assert_eq!(expand_template("{repo}", "{name}", "n"), "n");
}

#[test]
fn resolve_dir_uses_the_configured_template() {
    let c = cfg(&[], &[], Some("/tmp/out/{name}"), None);
    assert_eq!(resolve_dir(&c, "/home/u/repo", "fix-auth", Some("/home/u")), "/tmp/out/fix-auth");
    let c = cfg(&[], &[], Some("/tmp/{repo}/{name}"), None);
    assert_eq!(resolve_dir(&c, "/home/u/myrepo/", "x", None), "/tmp/myrepo/x");
    assert_eq!(resolve_dir(&c, "/", "x", Some("/h")), "/tmp/repo/x");
}

#[test]
fn resolve_dir_expands_the_home_directory() {
    let d = Config::default();
    assert_eq!(resolve_dir(&d, "/src/myrepo", "feat", Some("/home/u")), "/home/u/worktrees/myrepo/feat");
    assert_eq!(resolve_dir(&d, "/src/myrepo", "feat", None), "~/worktrees/myrepo/feat");
    let c = cfg(&[], &[], Some("~"), None);
    assert_eq!(resolve_dir(&c, "/src/myrepo", "feat", Some("/home/u")), "/home/u");
    let c = cfg(&[], &[], Some("~other/{name}"), None);
    assert_eq!(resolve_dir(&c, "/src/myrepo", "feat", Some("/home/u")), "~other/feat");
    let c = cfg(&[], &[], Some("/a/~/{name}"), None);
    assert_eq!(resolve_dir(&c, "/src/myrepo", "feat", Some("/home/u")), "/a/~/feat");
}

#[test]
fn unexpanded_dir_fills_the_default_template() {
    assert_eq!(unexpanded_dir(&Config::default(), Some("app".to_string()), "fix"), "~/worktrees/app/fix");
    assert_eq!(unexpanded_dir(&Config::default(), None, "fix"), "~/worktrees/repo/fix");
    let c = cfg(&[], &[], Some("/w/{name}"), None);
    assert_eq!(unexpanded_dir(&c, Some("app".to_string()), "x"), "/w/x");
}
