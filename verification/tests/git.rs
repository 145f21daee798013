use wt::error::WtError;
use wt::git::{
    branch_delete, common_dir, default_branch, main_worktree, origin_head_command, outcome, prune,
    status, status_command, toplevel, worktree_add, worktree_list, worktree_list_command,
    worktree_remove,
};

const LISTING: &str = "worktree /home/u/repo
HEAD 1111
branch refs/heads/main

worktree /home/u/out/fix-auth
HEAD 2222
branch refs/heads/fix-auth

worktree /home/u/out/det
HEAD 3333
detached";

#[test]
fn worktree_list_parses_porcelain_blocks() {
    let entries = worktree_list(LISTING);
    assert_eq!(entries.len(), 3);
    assert_eq!(entries[0].path, "/home/u/repo");
    assert_eq!(entries[0].branch.as_deref(), Some("main"));
    assert_eq!(entries[0].head, "1111");
    assert_eq!(entries[1].path, "/home/u/out/fix-auth");
    assert_eq!(entries[1].branch.as_deref(), Some("fix-auth"));
    assert_eq!(entries[2].path, "/home/u/out/det");
    assert_eq!(entries[2].branch, None);
    assert_eq!(entries[2].head, "3333");
}

#[test]
fn worktree_list_skips_entries_without_head() {
    let entries = worktree_list("worktree /a\nbranch refs/heads/x\nworktree /b\nHEAD 9\n");
    assert_eq!(entries.len(), 1);
    assert_eq!(entries[0].path, "/b");
    // the branch of the unrecorded entry carries over to the next one
    assert_eq!(entries[0].branch.as_deref(), Some("x"));
    assert!(worktree_list("").is_empty());
}

#[test]
fn worktree_list_keeps_non_heads_branches_and_crlf() {
    let entries = worktree_list("worktree /a\r\nHEAD 1\r\nbranch other/x\r\n");
    assert_eq!(entries.len(), 1);
    assert_eq!(entries[0].path, "/a");
    assert_eq!(entries[0].head, "1");
    assert_eq!(entries[0].branch.as_deref(), Some("other/x"));
}

#[test]
fn main_worktree_is_the_first_entry() {
    assert_eq!(main_worktree(LISTING).ok().as_deref(), Some("/home/u/repo"));
    assert!(matches!(main_worktree(""), Err(WtError::NoWorktrees)));
}

#[test]
fn main_worktree_of_a_bare_repository() {
    let out = "worktree /srv/repo.git\nbare\n\nworktree /w\nHEAD aaa\nbranch refs/heads/w";
    assert_eq!(main_worktree(out).ok().as_deref(), Some("/srv/repo.git"));
    assert!(matches!(main_worktree("bare\nHEAD aaa"), Err(WtError::NoWorktrees)));
}

#[test]
fn status_reads_dirty_ahead_and_behind() {
    let out = "# branch.oid abc\n# branch.head main\n# branch.upstream origin/main\n# branch.ab +2 -3\n1 .M N... 100644 100644 100644 x y README.md\n? untracked.txt";
    let st = status(out);
    assert!(st.dirty);
    assert_eq!(st.ahead, 2);
    assert_eq!(st.behind, 3);
}

#[test]
fn status_of_clean_worktree() {
    let st = status("# branch.oid abc\n# branch.head main\n# branch.ab +0 -0");
    assert!(!st.dirty);
    assert_eq!((st.ahead, st.behind), (0, 0));
    let st = status("");
    assert!(!st.dirty);
    assert_eq!((st.ahead, st.behind), (0, 0));
}

#[test]
fn status_ignores_malformed_counts() {
    let st = status("# branch.ab +x -4\n# branch.ab +1");
    assert!(!st.dirty);
    assert_eq!((st.ahead, st.behind), (0, 4));
}

#[test]
fn default_branch_strips_the_remote_prefix() {
    assert_eq!(default_branch(Some("refs/remotes/origin/main")).as_deref(), Some("main"));
    assert_eq!(default_branch(Some("refs/heads/main")), None);
    assert_eq!(default_branch(None), None);
}

#[test]
fn commands_carry_the_git_arguments() {
    assert_eq!(toplevel().args, vec!["rev-parse", "--show-toplevel"]);
    assert_eq!(worktree_list_command().args, vec!["worktree", "list", "--porcelain"]);
    assert_eq!(origin_head_command().args, vec!["symbolic-ref", "refs/remotes/origin/HEAD"]);
    let st = status_command("/w/x");
    assert_eq!(st.args, vec!["status", "--porcelain=v2", "--branch"]);
    assert_eq!(st.cwd.as_deref(), Some("/w/x"));
    assert_eq!(
        worktree_add("fix-auth", "/o/fix-auth", "main").args,
        vec!["worktree", "add", "-b", "fix-auth", "/o/fix-auth", "main"]
    );
    assert_eq!(worktree_remove("/o/x", true).args, vec!["worktree", "remove", "--force", "/o/x"]);
    assert_eq!(worktree_remove("/o/x", false).args, vec!["worktree", "remove", "/o/x"]);
    assert_eq!(branch_delete("x").args, vec!["branch", "-D", "x"]);
}

#[test]
fn outcome_trims_output_and_reports_failures() {
    let cmd = worktree_add("b", "/p", "main");
    assert_eq!(outcome(&cmd, true, "  out\n", "ignored").ok().as_deref(), Some("out"));
    match outcome(&cmd, false, "", "fatal: bad\n") {
        Err(e) => assert_eq!(e.message(), "git worktree add -b b /p main failed: fatal: bad"),
        Ok(_) => panic!("expected an error"),
    }
}

#[test]
fn prune_reports_stderr_when_stdout_is_empty() {
    assert_eq!(prune(true, "", "Removing worktrees/x\n").ok().as_deref(), Some("Removing worktrees/x"));
    assert_eq!(prune(true, "out", "err").ok().as_deref(), Some("out"));
    match prune(false, "", " boom ") {
        Err(e) => assert_eq!(e.message(), "git worktree prune failed: boom"),
        Ok(_) => panic!("expected an error"),
    }
}

#[test]
fn common_dir_joins_relative_paths() {
    assert_eq!(common_dir("/abs/.git", "/cwd"), "/abs/.git");
    assert_eq!(common_dir(".git", "/work/repo"), "/work/repo/.git");
    assert!(common_dir("../x/.git", "/w").starts_with('/'));
}
