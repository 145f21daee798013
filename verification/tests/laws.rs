use wt::commands::ls::{build_status, Row};
use wt::git::{main_worktree, status, worktree_list, WorktreeEntry};

fn porcelain(entries: &[WorktreeEntry]) -> String {
    let mut out = String::new();
    for e in entries {
        out.push_str(&format!("worktree {}\nHEAD {}\n", e.path, e.head));
        match &e.branch {
            Some(b) => out.push_str(&format!("branch refs/heads/{}\n", b)),
            None => out.push_str("detached\n"),
        }
        out.push('\n');
    }
    out
}

fn entry(path: &str, head: &str, branch: Option<&str>) -> WorktreeEntry {
    WorktreeEntry {
        path: path.to_string(),
        branch: branch.map(|b| b.to_string()),
        head: head.to_string(),
    }
}

#[test]
fn worktree_list_reads_back_the_porcelain_listing() {
    let entries = vec![
        entry("/home/u/repo", "0123abcd", Some("main")),
        entry("/home/u/worktrees/repo/fix auth", "4567", Some("feature/x")),
        entry("/tmp/detached", "89ab", None),
        entry("", "", Some("")),
    ];
    let parsed = worktree_list(&porcelain(&entries));
    assert_eq!(parsed.len(), entries.len());
    for (p, e) in parsed.iter().zip(entries.iter()) {
        assert_eq!(p.path, e.path);
        assert_eq!(p.head, e.head);
        assert_eq!(p.branch, e.branch);
    }
    assert!(worktree_list(&porcelain(&[])).is_empty());
}

#[test]
fn status_reads_back_the_branch_header() {
    for (a, b) in [(0u32, 0u32), (5, 7), (u32::MAX, 1)] {
        let out = format!("# branch.oid 1\n1 .M x\n# branch.ab +{} -{}", a, b);
        let st = status(&out);
        assert_eq!((st.ahead, st.behind), (a, b));
        assert!(st.dirty);
        let st = status(&format!("# branch.ab +{} -{}", a, b));
        assert_eq!((st.ahead, st.behind), (a, b));
        assert!(!st.dirty);
    }
}

#[test]
fn path_and_rm_find_the_same_worktree() {
    let entries = vec![
        entry("/w/repo", "1", Some("main")),
        entry("/w/out/fix-auth", "2", Some("fix-auth")),
        entry("/w/other/fix-auth", "3", None),
    ];
    for name in ["repo", "fix-auth", "missing"] {
        let by_path = wt::commands::path::run(&entries, name).ok();
        let by_rm = wt::commands::rm::run(&entries, name, true, false).ok().map(|p| p.path);
        assert_eq!(by_path, by_rm, "name {:?}", name);
    }
    assert_eq!(
        wt::commands::path::run(&entries, "fix-auth").ok().as_deref(),
        Some("/w/out/fix-auth")
    );
}

#[test]
fn worktree_list_reads_back_stanzas_with_further_lines_and_trimmed_output() {
    let full = "worktree /w/repo\nHEAD 1111\nbranch refs/heads/main\n\n\
                worktree /w/locked\nHEAD 2222\nbranch refs/heads/topic\nlocked reason\n\n\
                worktree /w/gone\nHEAD 3333\ndetached\nprunable gitdir file points to non-existent location\n\n";
    for out in [full, full.trim()] {
        let parsed = worktree_list(out);
        let got: Vec<(&str, &str, Option<&str>)> = parsed
            .iter()
            .map(|e| (e.path.as_str(), e.head.as_str(), e.branch.as_deref()))
            .collect();
        assert_eq!(
            got,
            vec![
                ("/w/repo", "1111", Some("main")),
                ("/w/locked", "2222", Some("topic")),
                ("/w/gone", "3333", None),
            ]
        );
        assert_eq!(main_worktree(out).ok().as_deref(), Some("/w/repo"));
    }
}

fn strip_sgr(s: &str) -> String {
    let mut out = String::new();
    let mut chars = s.chars().peekable();
    while let Some(c) = chars.next() {
        if c == '\u{1b}' && chars.peek() == Some(&'[') {
            for d in chars.by_ref() {
                if d == 'm' {
                    break;
                }
            }
        } else {
            out.push(c);
        }
    }
    out
}

#[test]
fn status_column_reads_plainly_without_colour_codes() {
    let cases = [
        (false, 0, 0, "clean"),
        (true, 0, 0, "dirty"),
        (false, 3, 0, "clean  \u{25cf}3 ahead"),
        (true, 0, 12, "dirty  \u{25cf}12 behind"),
        (true, 1, 2, "dirty  \u{25cf}1 ahead  \u{25cf}2 behind"),
    ];
    for (dirty, ahead, behind, plain) in cases {
        let r = Row {
            name: "n".to_string(),
            branch: "b".to_string(),
            path: "/p".to_string(),
            dirty,
            ahead,
            behind,
        };
        assert_eq!(strip_sgr(&build_status(&r)), plain);
    }
}

#[test]
fn worktree_list_reads_back_carriage_returns_inside_fields_and_trailing_blank_lines() {
    let full = "worktree /w/a\rb\nHEAD 1\r1\nbranch refs/heads/x\ry\nlocked   \n   \n\n";
    for out in [full, full.trim()] {
        let parsed = worktree_list(out);
        assert_eq!(parsed.len(), 1);
        assert_eq!(parsed[0].path, "/w/a\rb");
        assert_eq!(parsed[0].head, "1\r1");
        assert_eq!(parsed[0].branch.as_deref(), Some("x\ry"));
        assert_eq!(main_worktree(out).ok().as_deref(), Some("/w/a\rb"));
    }
    assert!(worktree_list("".trim()).is_empty());
}
