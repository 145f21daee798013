use owo_colors::OwoColorize;
use wt::commands::ls::{build_status, render, row, row_for, sort_rows, Row};
use wt::commands::rm::BranchAction;
use wt::commands::shellinit::Shell;
use wt::config::{Config, WorktreeCfg};
use wt::error::WtError;
use wt::git::{worktree_list, WorktreeEntry, WorktreeStatus};

fn entry(path: &str, branch: Option<&str>) -> WorktreeEntry {
    WorktreeEntry {
        path: path.to_string(),
        branch: branch.map(|b| b.to_string()),
        head: "abc".to_string(),
    }
}

fn entries() -> Vec<WorktreeEntry> {
    vec![
        entry("/tmp/repo", Some("main")),
        entry("/tmp/out/fix-auth", Some("fix-auth")),
        entry("/tmp/out/det", None),
    ]
}

fn test_cfg(copy: &[&str], setup: &[&str]) -> Config {
    Config {
        copy: copy.iter().map(|s| s.to_string()).collect(),
        setup: setup.iter().map(|s| s.to_string()).collect(),
        worktrees: WorktreeCfg { dir: Some("/tmp/out/{name}".to_string()), branch_prefix: Some(String::new()) },
    }
}

fn plain_row(name: &str, branch: &str, path: &str, dirty: bool, ahead: u32, behind: u32) -> Row {
    Row {
        name: name.to_string(),
        path: path.to_string(),
        branch: branch.to_string(),
        dirty,
        ahead,
        behind,
    }
}

#[test]
fn init_creates_and_force_overwrites() {
    let t = wt::commands::init::run("/r/.worktree.toml", false, false).ok().unwrap();
    assert_eq!(t, wt::commands::init::TEMPLATE);
    assert!(t.contains("dir = \"~/worktrees/{repo}/{name}\""));
    match wt::commands::init::run("/r/.worktree.toml", true, false) {
        Err(e) => assert_eq!(
            e.message(),
            "/r/.worktree.toml already exists. Use --force to overwrite."
        ),
        Ok(_) => panic!("expected a refusal"),
    }
    assert!(wt::commands::init::run("/r/.worktree.toml", true, true).is_ok());
}

#[test]
fn new_creates_worktree_copies_and_runs_setup() {
    let cfg = test_cfg(&[".env"], &["sh -c 'echo ran > setup-marker'"]);
    let plan = wt::commands::new::run(&cfg, "/tmp/repo", "fix-auth", None, None, Some("main"), false, false, None);
    assert_eq!(plan.branch, "fix-auth");
    assert_eq!(plan.base, "main");
    assert_eq!(plan.target, "/tmp/out/fix-auth");
    assert!(plan.copy);
    assert!(plan.setup);
    let add = wt::git::worktree_add(&plan.branch, &plan.target, &plan.base);
    assert_eq!(add.args, vec!["worktree", "add", "-b", "fix-auth", "/tmp/out/fix-auth", "main"]);
}

#[test]
fn new_no_setup_no_copy() {
    let cfg = test_cfg(&[".env"], &["sh -c 'echo ran > setup-marker'"]);
    let plan = wt::commands::new::run(&cfg, "/tmp/repo", "feat", None, None, Some("main"), true, true, None);
    assert_eq!(plan.target, "/tmp/out/feat");
    assert!(!plan.copy);
    assert!(!plan.setup);
}

#[test]
fn new_uses_prefix_override_and_fallback_base() {
    let mut cfg = test_cfg(&[], &[]);
    cfg.worktrees.branch_prefix = Some("me/".to_string());
    let plan = wt::commands::new::run(&cfg, "/tmp/repo", "x", None, None, None, false, false, None);
    assert_eq!(plan.branch, "me/x");
    assert_eq!(plan.base, "HEAD");
    assert!(!plan.copy && !plan.setup);
    let plan = wt::commands::new::run(&cfg, "/tmp/repo", "x", Some("dev"), Some("topic"), Some("main"), false, false, None);
    assert_eq!(plan.branch, "topic");
    assert_eq!(plan.base, "dev");
}

#[test]
fn path_prints_and_missing_fails() {
    assert_eq!(
        wt::commands::path::run(&entries(), "fix-auth").ok().as_deref(),
        Some("/tmp/out/fix-auth")
    );
    match wt::commands::path::run(&entries(), "nonexistent") {
        Err(e) => assert_eq!(e.message(), "worktree 'nonexistent' not found"),
        Ok(_) => panic!("expected not found"),
    }
}

#[test]
fn path_matches_a_root_path_by_the_empty_name() {
    let list = vec![entry("/", None), entry("/tmp/a", None)];
    assert_eq!(wt::commands::path::run(&list, "").ok().as_deref(), Some("/"));
    assert!(wt::commands::rm::run(&list, "", false, false).is_err());
}

#[test]
fn ls_lists_worktree() {
    let items = worktree_list("worktree /tmp/repo\nHEAD 1\nbranch refs/heads/main\n\nworktree /tmp/out/fix-auth\nHEAD 2\nbranch refs/heads/fix-auth")
        .into_iter()
        .map(|e| (e, None))
        .collect::<Vec<(WorktreeEntry, Option<WorktreeStatus>)>>();
    let out = wt::commands::ls::run(items);
    assert!(out.contains("fix-auth"));
    assert!(out.contains("/tmp/repo"));
}

#[test]
fn ls_listing_matches_the_formatted_table() {
    let items = vec![
        (entry("/w/zeta", Some("z")), Some(WorktreeStatus { dirty: true, ahead: 1, behind: 0 })),
        (entry("/w/alpha", None), None),
    ];
    let out = wt::commands::ls::run(items);
    let mut expected = String::new();
    expected.push_str(&format!("{:<5}  {:<10}  {}\n", "NAME".bold(), "BRANCH".bold(), "STATUS".bold()));
    expected.push_str(&format!(
        "{:<5}  {:<10}  {}\n",
        "alpha".green(),
        "(detached)".cyan(),
        "clean".green().to_string()
    ));
    expected.push_str(&format!("{:<5}  {}\n", "", "/w/alpha".dimmed()));
    expected.push_str(&format!(
        "{:<5}  {:<10}  {}\n",
        "zeta".green(),
        "z".cyan(),
        format!("{}  {}", "dirty".red(), "\u{25cf}1 ahead".yellow())
    ));
    expected.push_str(&format!("{:<5}  {}\n", "", "/w/zeta".dimmed()));
    assert_eq!(out, expected);
}

#[test]
fn build_status_colours_each_part() {
    let r = plain_row("x", "b", "/x", false, 0, 0);
    assert_eq!(build_status(&r), "\u{1b}[32mclean\u{1b}[39m");
    let r = plain_row("x", "b", "/x", true, 3, 12);
    assert_eq!(
        build_status(&r),
        "\u{1b}[31mdirty\u{1b}[39m  \u{1b}[33m\u{25cf}3 ahead\u{1b}[39m  \u{1b}[33m\u{25cf}12 behind\u{1b}[39m"
    );
}

#[test]
fn rows_name_worktrees_after_their_last_component() {
    let e = entry("/tmp/out/det", None);
    let r = row_for(&e, None);
    assert_eq!(r.name, "det");
    assert_eq!(r.branch, "(detached)");
    assert!(!r.dirty && r.ahead == 0 && r.behind == 0);
    let r = row(None, &entry("/", Some("main")), Some(WorktreeStatus { dirty: true, ahead: 2, behind: 1 }));
    assert_eq!(r.name, "/");
    assert_eq!(r.branch, "main");
    assert!(r.dirty && r.ahead == 2 && r.behind == 1);
}

#[test]
fn sort_rows_orders_by_name() {
    let rows = vec![
        plain_row("b", "x", "/b", false, 0, 0),
        plain_row("a", "x", "/a", false, 0, 0),
        plain_row("B", "x", "/B", false, 0, 0),
        plain_row("ab", "x", "/ab", false, 0, 0),
    ];
    let names: Vec<String> = sort_rows(rows).into_iter().map(|r| r.name).collect();
    assert_eq!(names, vec!["B", "a", "ab", "b"]);
}

#[test]
fn render_widths_count_bytes() {
    let rows = vec![plain_row("\u{e9}t\u{e9}", "main", "/p", false, 0, 0)];
    let out = render(&rows);
    // five bytes, padded to five characters
    assert!(out.starts_with(&format!("{}", format!("{:<5}", "NAME").bold())));
    assert!(out.contains(&format!("{}", format!("{:<5}", "\u{e9}t\u{e9}").green())));
}

#[test]
fn rm_removes_worktree_and_branch() {
    let plan = wt::commands::rm::run(&entries(), "fix-auth", false, true).ok().unwrap();
    assert_eq!(plan.path, "/tmp/out/fix-auth");
    assert!(plan.check_clean);
    assert!(matches!(plan.branch, BranchAction::Delete(ref b) if b == "fix-auth"));
    let remove = wt::git::worktree_remove(&plan.path, false);
    assert_eq!(remove.args, vec!["worktree", "remove", "/tmp/out/fix-auth"]);
}

#[test]
fn rm_plans_for_detached_forced_and_missing() {
    let plan = wt::commands::rm::run(&entries(), "det", true, true).ok().unwrap();
    assert!(!plan.check_clean);
    assert!(matches!(plan.branch, BranchAction::WarnDetached));
    let plan = wt::commands::rm::run(&entries(), "fix-auth", true, false).ok().unwrap();
    assert!(matches!(plan.branch, BranchAction::Keep));
    assert!(matches!(
        wt::commands::rm::run(&entries(), "nope", false, false),
        Err(WtError::NotFound { .. })
    ));
}

#[test]
fn rm_refuses_a_dirty_worktree() {
    let dirty = WorktreeStatus { dirty: true, ahead: 0, behind: 0 };
    match wt::commands::rm::confirm("fix-auth", &dirty) {
        Err(e) => assert_eq!(
            e.message(),
            "worktree 'fix-auth' has uncommitted changes. Use --force to remove anyway."
        ),
        Ok(_) => panic!("expected a refusal"),
    }
    let clean = WorktreeStatus { dirty: false, ahead: 4, behind: 0 };
    assert!(wt::commands::rm::confirm("fix-auth", &clean).is_ok());
}

#[test]
fn setup_finds_the_worktree_and_its_steps() {
    assert_eq!(wt::commands::setup::run(&entries(), "det").ok().as_deref(), Some("/tmp/out/det"));
    assert!(matches!(wt::commands::setup::run(&entries(), "x"), Err(WtError::NotFound { .. })));
    let s = wt::commands::setup::steps(&test_cfg(&[".env"], &[])).ok().unwrap();
    assert!(s.copy && !s.setup);
    match wt::commands::setup::steps(&test_cfg(&[], &[])) {
        Err(e) => assert_eq!(e.message(), "no copy or setup commands configured"),
        Ok(_) => panic!("expected an error"),
    }
}

#[test]
fn prune_reports_nothing_to_prune() {
    assert_eq!(wt::commands::prune::run(""), "nothing to prune");
    assert_eq!(wt::commands::prune::run("Removing x"), "Removing x");
}

#[test]
fn shellinit_zsh_prints_function() {
    let script = wt::commands::shellinit::run(&Shell::Zsh);
    assert!(script.contains("builtin cd"));
    assert!(script.contains("--print-path"));
    assert_eq!(wt::commands::shellinit::run(&Shell::Bash), script);
    let fish = wt::commands::shellinit::run(&Shell::Fish);
    assert!(fish.starts_with("function wt"));
    assert!(fish.contains("--print-path"));
    assert!(Shell::default() == Shell::Zsh);
}

#[test]
fn error_messages() {
    assert_eq!(WtError::NoWorktrees.message(), "no worktrees found");
    assert_eq!(
        WtError::GitFailed { args: vec!["branch".into(), "-D".into(), "x".into()], stderr: "e".into() }.message(),
        "git branch -D x failed: e"
    );
}
