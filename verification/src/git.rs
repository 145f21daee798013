//! The git side of the worktree manager: the git invocations it makes and the
//! interpretation of what git prints back.
use vstd::prelude::*;

use crate::error::WtError;
use crate::paths::{is_absolute, is_absolute_path, join, joined};
use crate::text::{
    chars_eq, chars_of, decimal, is_digit, is_whitespace, lemma_decimal_digits,
    lemma_first_index_unique, lemma_parse_decimal, lines, lines_of, matches_at, newline, opt_str,
    owned, parse_u32, parse_u32_of, slice_of, split_whitespace, split_whitespace_of, starts_with,
    string_of, strs, all_whitespace, lemma_trim_end_visible, lemma_trim_end_whitespace, trim,
    trim_end, trim_of, trim_start, trim_start_matches, trim_start_matches_of, views, whitespace,
};

verus! {

// ---------------------------------------------------------------------------
// Invocations
// ---------------------------------------------------------------------------

/// One run of the `git` binary: its arguments and, where it matters, the
/// directory it runs in.
pub struct GitCommand {
    pub args: Vec<String>,
    pub cwd: Option<String>,
}

impl GitCommand {
    /// The arguments as character sequences.
    pub open spec fn arg_views(&self) -> Seq<Seq<char>> {
        strs(self.args@)
    }
}

fn push_arg(v: &mut Vec<String>, s: &str)
    ensures
        strs(final(v)@) == strs(old(v)@).push(s@),
{
    v.push(owned(s));
    assert(strs(v@) =~= strs(old(v)@).push(s@));
}

fn command(args: Vec<String>) -> (c: GitCommand)
    ensures
        c.args == args,
        c.cwd is None,
{
    GitCommand { args, cwd: None }
}

/// `git rev-parse --show-toplevel`: the root of the current worktree.
pub fn toplevel() -> (c: GitCommand)
    ensures
        c.arg_views() == seq!["rev-parse"@, "--show-toplevel"@],
        c.cwd is None,
{
    let mut v: Vec<String> = Vec::new();
    push_arg(&mut v, "rev-parse");
    push_arg(&mut v, "--show-toplevel");
    command(v)
}

/// `git rev-parse --git-common-dir`: the `.git` directory shared by all worktrees.
pub fn common_dir_command() -> (c: GitCommand)
    ensures
        c.arg_views() == seq!["rev-parse"@, "--git-common-dir"@],
        c.cwd is None,
{
    let mut v: Vec<String> = Vec::new();
    push_arg(&mut v, "rev-parse");
    push_arg(&mut v, "--git-common-dir");
    command(v)
}

/// `git symbolic-ref refs/remotes/origin/HEAD`: the remote's default branch.
pub fn origin_head_command() -> (c: GitCommand)
    ensures
        c.arg_views() == seq!["symbolic-ref"@, "refs/remotes/origin/HEAD"@],
        c.cwd is None,
{
    let mut v: Vec<String> = Vec::new();
    push_arg(&mut v, "symbolic-ref");
    push_arg(&mut v, "refs/remotes/origin/HEAD");
    command(v)
}

/// `git rev-parse --abbrev-ref HEAD`: the branch checked out here.
pub fn head_branch_command() -> (c: GitCommand)
    ensures
        c.arg_views() == seq!["rev-parse"@, "--abbrev-ref"@, "HEAD"@],
        c.cwd is None,
{
    let mut v: Vec<String> = Vec::new();
    push_arg(&mut v, "rev-parse");
    push_arg(&mut v, "--abbrev-ref");
    push_arg(&mut v, "HEAD");
    command(v)
}

/// `git worktree list --porcelain`.
pub fn worktree_list_command() -> (c: GitCommand)
    ensures
        c.arg_views() == seq!["worktree"@, "list"@, "--porcelain"@],
        c.cwd is None,
{
    let mut v: Vec<String> = Vec::new();
    push_arg(&mut v, "worktree");
    push_arg(&mut v, "list");
    push_arg(&mut v, "--porcelain");
    command(v)
}

/// `git status --porcelain=v2 --branch`, run inside the worktree at `worktree_path`.
pub fn status_command(worktree_path: &str) -> (c: GitCommand)
    ensures
        c.arg_views() == seq!["status"@, "--porcelain=v2"@, "--branch"@],
        opt_str(c.cwd) == Some(worktree_path@),
{
    let mut v: Vec<String> = Vec::new();
    push_arg(&mut v, "status");
    push_arg(&mut v, "--porcelain=v2");
    push_arg(&mut v, "--branch");
    GitCommand { args: v, cwd: Some(owned(worktree_path)) }
}

/// `git worktree add -b <branch> <path> <from>`: a new worktree at `path` on a new
/// branch `branch` that starts at `from`.
pub fn worktree_add(branch: &str, path: &str, from: &str) -> (c: GitCommand)
    ensures
        c.arg_views() == seq!["worktree"@, "add"@, "-b"@, branch@, path@, from@],
        c.cwd is None,
{
    let mut v: Vec<String> = Vec::new();
    push_arg(&mut v, "worktree");
    push_arg(&mut v, "add");
    push_arg(&mut v, "-b");
    push_arg(&mut v, branch);
    push_arg(&mut v, path);
    push_arg(&mut v, from);
    command(v)
}

/// `git worktree remove [--force] <path>`.
pub fn worktree_remove(path: &str, force: bool) -> (c: GitCommand)
    ensures
        force ==> c.arg_views() == seq!["worktree"@, "remove"@, "--force"@, path@],
        !force ==> c.arg_views() == seq!["worktree"@, "remove"@, path@],
        c.cwd is None,
{
    let mut v: Vec<String> = Vec::new();
    push_arg(&mut v, "worktree");
    push_arg(&mut v, "remove");
    if force {
        push_arg(&mut v, "--force");
    }
    push_arg(&mut v, path);
    command(v)
}

/// `git branch -D <branch>`.
pub fn branch_delete(branch: &str) -> (c: GitCommand)
    ensures
        c.arg_views() == seq!["branch"@, "-D"@, branch@],
        c.cwd is None,
{
    let mut v: Vec<String> = Vec::new();
    push_arg(&mut v, "branch");
    push_arg(&mut v, "-D");
    push_arg(&mut v, branch);
    command(v)
}

/// `git worktree prune --verbose`.
pub fn prune_command() -> (c: GitCommand)
    ensures
        c.arg_views() == seq!["worktree"@, "prune"@, "--verbose"@],
        c.cwd is None,
{
    let mut v: Vec<String> = Vec::new();
    push_arg(&mut v, "worktree");
    push_arg(&mut v, "prune");
    push_arg(&mut v, "--verbose");
    command(v)
}

// ---------------------------------------------------------------------------
// Outcomes
// ---------------------------------------------------------------------------

/// What a finished git run amounts to: its trimmed standard output when it
/// succeeded, else an error naming the arguments and the trimmed standard error.
pub fn outcome(cmd: &GitCommand, success: bool, stdout: &str, stderr: &str) -> (r: Result<
    String,
    WtError,
>)
    ensures
        success ==> (r matches Ok(out) && out@ == trim(stdout@)),
        !success ==> (r matches Err(WtError::GitFailed { args, stderr: e }) && strs(args@)
            == cmd.arg_views() && e@ == trim(stderr@)),
{
    if success {
        Ok(string_of(&trim_of(&chars_of(stdout))))
    } else {
        let mut args: Vec<String> = Vec::new();
        let mut i: usize = 0;
        while i < cmd.args.len()
            invariant
                0 <= i <= cmd.args@.len(),
                strs(args@) == cmd.arg_views().take(i as int),
            decreases cmd.args@.len() - i,
        {
            push_arg(&mut args, cmd.args[i].as_str());
            assert(cmd.arg_views().take(i + 1) =~= cmd.arg_views().take(i as int).push(
                cmd.args@[i as int]@,
            ));
            i = i + 1;
        }
        assert(cmd.arg_views().take(cmd.args@.len() as int) =~= cmd.arg_views());
        Err(WtError::GitFailed { args, stderr: string_of(&trim_of(&chars_of(stderr))) })
    }
}

/// What `git worktree prune --verbose` amounts to: git reports pruned entries
/// on standard error, so that is the report when standard output is empty.
pub fn prune(success: bool, stdout: &str, stderr: &str) -> (r: Result<String, WtError>)
    ensures
        success && trim(stdout@).len() > 0 ==> (r matches Ok(out) && out@ == trim(stdout@)),
        success && trim(stdout@).len() == 0 ==> (r matches Ok(out) && out@ == trim(stderr@)),
        !success ==> (r matches Err(WtError::PruneFailed { stderr: e }) && e@ == trim(stderr@)),
{
    let out = trim_of(&chars_of(stdout));
    let err = trim_of(&chars_of(stderr));
    if !success {
        return Err(WtError::PruneFailed { stderr: string_of(&err) });
    }
    if out.len() == 0 {
        Ok(string_of(&err))
    } else {
        Ok(string_of(&out))
    }
}

// ---------------------------------------------------------------------------
// Default branch
// ---------------------------------------------------------------------------

pub open spec fn origin_prefix() -> Seq<char> {
    "refs/remotes/origin/"@
}

/// The default branch named by the output of `git symbolic-ref
/// refs/remotes/origin/HEAD` (such as `refs/remotes/origin/main`), or `None` when
/// that command failed or named something else, in which case the branch
/// checked out at `HEAD` is the default.
pub fn default_branch(origin_head: Option<&str>) -> (r: Option<String>)
    ensures
        match origin_head {
            Some(s) => if starts_with(s@, origin_prefix()) {
                r matches Some(b) && b@ == s@.skip(origin_prefix().len() as int)
            } else {
                r is None
            },
            None => r is None,
        },
{
    match origin_head {
        Some(s) => {
            let chars = chars_of(s);
            let prefix = chars_of("refs/remotes/origin/");
            assert(chars@.skip(0) =~= chars@);
            if matches_at(&chars, 0, &prefix) {
                Some(string_of(&slice_of(&chars, prefix.len(), chars.len())))
            } else {
                None
            }
        },
        None => None,
    }
}

// ---------------------------------------------------------------------------
// `git worktree list --porcelain`
// ---------------------------------------------------------------------------

/// A parsed entry from `git worktree list --porcelain`.
#[derive(Debug, Clone)]
pub struct WorktreeEntry {
    pub path: String,
    /// `None` for a detached `HEAD`.
    pub branch: Option<String>,
    pub head: String,
}

/// A worktree entry as plain character sequences.
pub struct EntryView {
    pub path: Seq<char>,
    pub branch: Option<Seq<char>>,
    pub head: Seq<char>,
}

impl View for WorktreeEntry {
    type V = EntryView;

    open spec fn view(&self) -> EntryView {
        EntryView { path: self.path@, branch: opt_str(self.branch), head: self.head@ }
    }
}

/// The views of a sequence of entries.
pub open spec fn entry_views(v: Seq<WorktreeEntry>) -> Seq<EntryView> {
    v.map_values(|e: WorktreeEntry| e@)
}

/// What the parser has gathered so far: the finished entries and the fields of
/// the entry being read.
pub struct ListState {
    pub entries: Seq<EntryView>,
    pub path: Option<Seq<char>>,
    pub branch: Option<Seq<char>>,
    pub head: Option<Seq<char>>,
}

pub open spec fn worktree_prefix() -> Seq<char> {
    "worktree "@
}

pub open spec fn head_prefix() -> Seq<char> {
    "HEAD "@
}

pub open spec fn branch_prefix() -> Seq<char> {
    "branch "@
}

pub open spec fn heads_prefix() -> Seq<char> {
    "refs/heads/"@
}

pub open spec fn empty_state() -> ListState {
    ListState { entries: seq![], path: None, branch: None, head: None }
}

/// Ends the entry being read: it is recorded when it has both a path and a
/// head. Path and head are cleared either way; the branch only when recorded.
pub open spec fn flush(st: ListState) -> ListState {
    match (st.path, st.head) {
        (Some(p), Some(h)) => ListState {
            entries: st.entries.push(EntryView { path: p, branch: st.branch, head: h }),
            path: None,
            branch: None,
            head: None,
        },
        _ => ListState { entries: st.entries, path: None, branch: st.branch, head: None },
    }
}

/// The branch named on a `branch ` line: the rest of the line without one
/// leading `refs/heads/`.
pub open spec fn branch_name(rest: Seq<char>) -> Seq<char> {
    if starts_with(rest, heads_prefix()) {
        rest.skip(heads_prefix().len() as int)
    } else {
        rest
    }
}

/// One line of porcelain output read into the state.
pub open spec fn list_step(st: ListState, line: Seq<char>) -> ListState {
    if starts_with(line, worktree_prefix()) {
        let f = flush(st);
        ListState {
            entries: f.entries,
            path: Some(trim_start_matches(line, worktree_prefix())),
            branch: f.branch,
            head: f.head,
        }
    } else if starts_with(line, head_prefix()) {
        ListState {
            entries: st.entries,
            path: st.path,
            branch: st.branch,
            head: Some(line.skip(head_prefix().len() as int)),
        }
    } else if starts_with(line, branch_prefix()) {
        ListState {
            entries: st.entries,
            path: st.path,
            branch: Some(branch_name(line.skip(branch_prefix().len() as int))),
            head: st.head,
        }
    } else if line == "detached"@ {
        ListState { entries: st.entries, path: st.path, branch: None, head: st.head }
    } else {
        st
    }
}

/// The state after reading `ls` in order, starting from `st`.
pub open spec fn read_from(st: ListState, ls: Seq<Seq<char>>) -> ListState
    decreases ls.len(),
{
    if ls.len() == 0 {
        st
    } else {
        list_step(read_from(st, ls.drop_last()), ls.last())
    }
}

/// The state after reading `ls` in order.
pub open spec fn read_lines(ls: Seq<Seq<char>>) -> ListState {
    read_from(empty_state(), ls)
}

/// The worktrees listed in the output of `git worktree list --porcelain`.
pub open spec fn parse_worktrees(s: Seq<char>) -> Seq<EntryView> {
    flush(read_lines(lines(s))).entries
}

pub open spec fn state_of(
    entries: Seq<WorktreeEntry>,
    path: Option<String>,
    branch: Option<String>,
    head: Option<String>,
) -> ListState {
    ListState {
        entries: entry_views(entries),
        path: opt_str(path),
        branch: opt_str(branch),
        head: opt_str(head),
    }
}

fn flush_into(
    entries: &mut Vec<WorktreeEntry>,
    path: &mut Option<String>,
    branch: &mut Option<String>,
    head: &mut Option<String>,
)
    ensures
        state_of(final(entries)@, *final(path), *final(branch), *final(head)) == flush(
            state_of(old(entries)@, *old(path), *old(branch), *old(head)),
        ),
{
    let p = path.take();
    let h = head.take();
    match (p, h) {
        (Some(p), Some(h)) => {
            let b = branch.take();
            entries.push(WorktreeEntry { path: p, branch: b, head: h });
            assert(entry_views(entries@) =~= entry_views(old(entries)@).push(entries@.last()@));
        },
        _ => {},
    }
}

/// Parses the output of `git worktree list --porcelain`.
pub fn worktree_list(output: &str) -> (entries: Vec<WorktreeEntry>)
    ensures
        entry_views(entries@) == parse_worktrees(output@),
{
    let chars = chars_of(output);
    let ls = lines_of(&chars);
    let worktree_p = chars_of("worktree ");
    let head_p = chars_of("HEAD ");
    let branch_p = chars_of("branch ");
    let heads_p = chars_of("refs/heads/");
    let detached = chars_of("detached");
    let mut entries: Vec<WorktreeEntry> = Vec::new();
    let mut path: Option<String> = None;
    let mut branch: Option<String> = None;
    let mut head: Option<String> = None;
    let ghost lv = views(ls@);
    let mut i: usize = 0;
    assert(entry_views(entries@) =~= Seq::<EntryView>::empty());
    assert(lv.take(0) =~= Seq::<Seq<char>>::empty());
    while i < ls.len()
        invariant
            0 <= i <= ls@.len(),
            lv == views(ls@),
            lv == lines(chars@),
            chars@ == output@,
            worktree_p@ == worktree_prefix(),
            head_p@ == head_prefix(),
            branch_p@ == branch_prefix(),
            heads_p@ == heads_prefix(),
            detached@ == "detached"@,
            state_of(entries@, path, branch, head) == read_lines(lv.take(i as int)),
        decreases ls@.len() - i,
    {
        let line = &ls[i];
        let ghost before = state_of(entries@, path, branch, head);
        assert(line@ == lv[i as int]);
        assert(line@.skip(0) =~= line@);
        assert(lv.take(i + 1).drop_last() =~= lv.take(i as int));
        if matches_at(line, 0, &worktree_p) {
            flush_into(&mut entries, &mut path, &mut branch, &mut head);
            path = Some(string_of(&trim_start_matches_of(line, &worktree_p)));
        } else if matches_at(line, 0, &head_p) {
            head = Some(string_of(&slice_of(line, head_p.len(), line.len())));
            assert(line@.subrange(head_p@.len() as int, line@.len() as int) =~= line@.skip(
                head_p@.len() as int,
            ));
        } else if matches_at(line, 0, &branch_p) {
            let rest = slice_of(line, branch_p.len(), line.len());
            assert(rest@ =~= line@.skip(branch_p@.len() as int));
            assert(rest@.skip(0) =~= rest@);
            let name = if matches_at(&rest, 0, &heads_p) {
                let n = slice_of(&rest, heads_p.len(), rest.len());
                assert(n@ =~= rest@.skip(heads_p@.len() as int));
                n
            } else {
                rest
            };
            branch = Some(string_of(&name));
        } else if chars_eq(line, &detached) {
            branch = None;
        }
        i = i + 1;
    }
    assert(lv.take(i as int) =~= lv);
    flush_into(&mut entries, &mut path, &mut branch, &mut head);
    entries
}

/// The path on the first `worktree ` line of `ls`, if there is one.
pub open spec fn first_worktree(ls: Seq<Seq<char>>) -> Option<Seq<char>>
    decreases ls.len(),
{
    if ls.len() == 0 {
        None
    } else if starts_with(ls[0], worktree_prefix()) {
        Some(trim_start_matches(ls[0], worktree_prefix()))
    } else {
        first_worktree(ls.drop_first())
    }
}

/// The path of the main worktree, the one that owns the git directory: git
/// lists it first in `git worktree list --porcelain`, whose output is
/// `output`. A bare main repository counts too, though it has no `HEAD` line.
pub fn main_worktree(output: &str) -> (r: Result<String, WtError>)
    ensures
        first_worktree(lines(output@)) is None ==> r matches Err(WtError::NoWorktrees),
        first_worktree(lines(output@)) matches Some(p) ==> (r matches Ok(q) && q@ == p),
{
    let chars = chars_of(output);
    let ls = lines_of(&chars);
    let worktree_p = chars_of("worktree ");
    let ghost lv = views(ls@);
    let mut i: usize = 0;
    assert(lv.skip(0) =~= lv);
    while i < ls.len()
        invariant
            0 <= i <= ls@.len(),
            lv == views(ls@),
            lv == lines(output@),
            worktree_p@ == worktree_prefix(),
            first_worktree(lv) == first_worktree(lv.skip(i as int)),
        decreases ls@.len() - i,
    {
        let line = &ls[i];
        assert(line@ == lv[i as int]);
        assert(lv.skip(i as int)[0] == lv[i as int]);
        if matches_at(line, 0, &worktree_p) {
            assert(line@.skip(0) =~= line@);
            return Ok(string_of(&trim_start_matches_of(line, &worktree_p)));
        }
        assert(line@.skip(0) =~= line@);
        assert(lv.skip(i as int).drop_first() =~= lv.skip(i + 1));
        i = i + 1;
    }
    assert(lv.skip(i as int) =~= Seq::<Seq<char>>::empty());
    Err(WtError::NoWorktrees)
}

// ---------------------------------------------------------------------------
// Reading back what git writes
// ---------------------------------------------------------------------------

pub open spec fn newline_seq() -> Seq<char> {
    seq!['\n']
}

/// The line git writes for the branch of a worktree.
pub open spec fn branch_line(b: Option<Seq<char>>) -> Seq<char> {
    match b {
        Some(b) => branch_prefix() + heads_prefix() + b,
        None => "detached"@,
    }
}

/// One stanza of `git worktree list --porcelain` for a worktree with a `HEAD`:
/// the entry it describes, and the further lines (such as `locked` or
/// `prunable ...`) that git writes after its branch line.
pub struct Stanza {
    pub entry: EntryView,
    pub extras: Seq<Seq<char>>,
}

/// The first three lines of a stanza: `worktree`, `HEAD`, and `branch` (or
/// `detached`).
pub open spec fn head_lines(e: EntryView) -> Seq<Seq<char>> {
    seq![worktree_prefix() + e.path, head_prefix() + e.head, branch_line(e.branch)]
}

/// The lines of a stanza without the empty line that ends it.
pub open spec fn stanza_body(s: Stanza) -> Seq<Seq<char>> {
    head_lines(s.entry) + s.extras
}

/// The lines of a stanza, then the empty line that ends it.
pub open spec fn stanza_lines(s: Stanza) -> Seq<Seq<char>> {
    stanza_body(s) + seq![Seq::<char>::empty()]
}

/// The lines of a listing, one stanza after another.
pub open spec fn listing_lines(ss: Seq<Stanza>) -> Seq<Seq<char>>
    decreases ss.len(),
{
    if ss.len() == 0 {
        seq![]
    } else {
        listing_lines(ss.drop_last()) + stanza_lines(ss.last())
    }
}

/// Lines written out, each followed by a line feed.
pub open spec fn text_of(ls: Seq<Seq<char>>) -> Seq<char>
    decreases ls.len(),
{
    if ls.len() == 0 {
        seq![]
    } else {
        ls[0] + newline_seq() + text_of(ls.drop_first())
    }
}

/// What `git worktree list --porcelain` writes for the stanzas `ss`.
pub open spec fn porcelain(ss: Seq<Stanza>) -> Seq<char> {
    text_of(listing_lines(ss))
}

/// The entries that the stanzas describe.
pub open spec fn stanza_entries(ss: Seq<Stanza>) -> Seq<EntryView> {
    ss.map_values(|s: Stanza| s.entry)
}

/// Text that reads back as one line: no line feed, and no carriage return at
/// its end (which reading would take for part of a `"\r\n"`).
pub open spec fn single_line(s: Seq<char>) -> bool {
    &&& forall|i: int| 0 <= i < s.len() ==> s[i] != '\n'
    &&& (s.len() == 0 || s.last() != '\r')
}

/// A worktree whose fields read back as single lines, and whose path does not
/// itself begin with `worktree `.
pub open spec fn listable(e: EntryView) -> bool {
    &&& single_line(e.path)
    &&& single_line(e.head)
    &&& (e.branch matches Some(b) ==> single_line(b))
    &&& !starts_with(e.path, worktree_prefix())
}

proof fn lemma_lines_step(x: Seq<char>, y: Seq<char>)
    requires
        forall|i: int| 0 <= i < x.len() ==> x[i] != '\n',
        x.len() == 0 || x.last() != '\r',
    ensures
        lines(x + newline_seq() + y) == seq![x] + lines(y),
{
    let s = x + newline_seq() + y;
    assert forall|j: int| 0 <= j < x.len() implies !newline(#[trigger] s[j]) by {
        assert(s[j] == x[j]);
    }
    assert(s[x.len() as int] == '\n');
    lemma_first_index_unique(s, |c: char| newline(c), x.len() as int);
    assert(s.take(x.len() as int) =~= x);
    assert(s.skip(x.len() + 1 as int) =~= y);
}

proof fn lemma_starts(p: Seq<char>, x: Seq<char>)
    ensures
        starts_with(p + x, p),
        (p + x).skip(p.len() as int) == x,
{
    assert((p + x).take(p.len() as int) =~= p);
    assert((p + x).skip(p.len() as int) =~= x);
}

proof fn lemma_not_starts(s: Seq<char>, p: Seq<char>)
    requires
        p.len() > 0,
        s.len() > 0 ==> s[0] != p[0],
    ensures
        !starts_with(s, p),
{
    if starts_with(s, p) {
        assert(s.take(p.len() as int)[0] == s[0]);
    }
}

proof fn lemma_single_line_concat(a: Seq<char>, b: Seq<char>)
    requires
        single_line(a),
        single_line(b),
    ensures
        single_line(a + b),
{
    assert forall|i: int| 0 <= i < (a + b).len() implies (a + b)[i] != '\n' by {
        if i < a.len() {
            assert((a + b)[i] == a[i]);
        } else {
            assert((a + b)[i] == b[i - a.len()]);
        }
    }
    if b.len() > 0 {
        assert((a + b).last() == b.last());
    } else {
        assert(a + b =~= a);
    }
}

proof fn lemma_literals()
    ensures
        worktree_prefix().len() == 9,
        worktree_prefix()[0] == 'w',
        single_line(worktree_prefix()),
        head_prefix().len() == 5,
        head_prefix()[0] == 'H',
        single_line(head_prefix()),
        branch_prefix().len() == 7,
        branch_prefix()[0] == 'b',
        single_line(branch_prefix()),
        single_line(heads_prefix()),
        heads_prefix().len() == 11,
        "detached"@.len() == 8,
        "detached"@[0] == 'd',
        single_line("detached"@),
{
    reveal_strlit("worktree ");
    reveal_strlit("HEAD ");
    reveal_strlit("branch ");
    reveal_strlit("refs/heads/");
    reveal_strlit("detached");
}

/// A line that the parser passes over: it fits on one line and is none of
/// `worktree ...`, `HEAD ...`, `branch ...` and `detached`.
pub open spec fn ignored_line(l: Seq<char>) -> bool {
    &&& single_line(l)
    &&& !starts_with(l, worktree_prefix())
    &&& !starts_with(l, head_prefix())
    &&& !starts_with(l, branch_prefix())
    &&& l != "detached"@
}

/// A stanza that git can write and the parser can read back: a listable entry,
/// and further lines that the parser passes over.
pub open spec fn listable_stanza(s: Stanza) -> bool {
    &&& listable(s.entry)
    &&& forall|i: int| 0 <= i < s.extras.len() ==> ignored_line(#[trigger] s.extras[i])
}

/// A line that ends with a character other than whitespace.
pub open spec fn ends_visibly(l: Seq<char>) -> bool {
    l.len() > 0 && !is_whitespace(l.last())
}

proof fn lemma_text_append(a: Seq<Seq<char>>, b: Seq<Seq<char>>)
    ensures
        text_of(a + b) == text_of(a) + text_of(b),
    decreases a.len(),
{
    if a.len() == 0 {
        assert(a + b =~= b);
    } else {
        lemma_text_append(a.drop_first(), b);
        assert((a + b).drop_first() =~= a.drop_first() + b);
        assert((a + b)[0] == a[0]);
    }
}

proof fn lemma_lines_text(m: Seq<Seq<char>>, y: Seq<char>)
    requires
        forall|i: int| 0 <= i < m.len() ==> single_line(#[trigger] m[i]),
    ensures
        lines(text_of(m) + y) == m + lines(y),
    decreases m.len(),
{
    if m.len() == 0 {
        assert(text_of(m) + y =~= y);
        assert(m + lines(y) =~= lines(y));
    } else {
        let x = m[0];
        let rest = m.drop_first();
        assert(single_line(x));
        assert forall|i: int| 0 <= i < rest.len() implies single_line(#[trigger] rest[i]) by {
            assert(rest[i] == m[i + 1]);
        }
        lemma_lines_text(rest, y);
        assert(text_of(m) + y =~= x + newline_seq() + (text_of(rest) + y));
        lemma_lines_step(x, text_of(rest) + y);
        assert(seq![x] + (rest + lines(y)) =~= m + lines(y));
    }
}

proof fn lemma_stanza_single(s: Stanza)
    requires
        listable_stanza(s),
    ensures
        forall|i: int|
            0 <= i < stanza_lines(s).len() ==> single_line(#[trigger] stanza_lines(s)[i]),
{
    lemma_literals();
    let e = s.entry;
    lemma_single_line_concat(worktree_prefix(), e.path);
    lemma_single_line_concat(head_prefix(), e.head);
    match e.branch {
        Some(br) => {
            lemma_single_line_concat(branch_prefix(), heads_prefix());
            lemma_single_line_concat(branch_prefix() + heads_prefix(), br);
        },
        None => {},
    }
    let l = stanza_lines(s);
    assert forall|i: int| 0 <= i < l.len() implies single_line(#[trigger] l[i]) by {
        if i < 3 {
            assert(l[i] == head_lines(e)[i]);
        } else if i < 3 + s.extras.len() {
            assert(l[i] == s.extras[i - 3]);
        } else {
            assert(l[i] == Seq::<char>::empty());
        }
    }
}

proof fn lemma_listing_single(ss: Seq<Stanza>)
    requires
        forall|i: int| 0 <= i < ss.len() ==> listable_stanza(#[trigger] ss[i]),
    ensures
        forall|i: int|
            0 <= i < listing_lines(ss).len() ==> single_line(#[trigger] listing_lines(ss)[i]),
    decreases ss.len(),
{
    if ss.len() > 0 {
        let init = ss.drop_last();
        assert forall|i: int| 0 <= i < init.len() implies listable_stanza(#[trigger] init[i]) by {
            assert(init[i] == ss[i]);
        }
        lemma_listing_single(init);
        assert(listable_stanza(ss.last()));
        lemma_stanza_single(ss.last());
        let a = listing_lines(init);
        let b = stanza_lines(ss.last());
        assert forall|i: int| 0 <= i < (a + b).len() implies single_line(#[trigger] (a + b)[i]) by {
            if i < a.len() {
                assert((a + b)[i] == a[i]);
            } else {
                assert((a + b)[i] == b[i - a.len()]);
            }
        }
    }
}

proof fn lemma_read_ignored(st: ListState, ls: Seq<Seq<char>>)
    requires
        forall|i: int| 0 <= i < ls.len() ==> ignored_line(#[trigger] ls[i]),
    ensures
        read_from(st, ls) == st,
    decreases ls.len(),
{
    if ls.len() > 0 {
        let init = ls.drop_last();
        assert forall|i: int| 0 <= i < init.len() implies ignored_line(#[trigger] init[i]) by {
            assert(init[i] == ls[i]);
        }
        lemma_read_ignored(st, init);
        assert(ignored_line(ls.last()));
    }
}

proof fn lemma_read_from_append(st: ListState, a: Seq<Seq<char>>, b: Seq<Seq<char>>)
    ensures
        read_from(st, a + b) == read_from(read_from(st, a), b),
    decreases b.len(),
{
    if b.len() == 0 {
        assert(a + b =~= a);
    } else {
        lemma_read_from_append(st, a, b.drop_last());
        assert((a + b).drop_last() =~= a + b.drop_last());
        assert((a + b).last() == b.last());
    }
}

/// The state once the stanzas of `done` have been read: all but the last are
/// recorded, and the last is the entry being read.
pub open spec fn pending(done: Seq<EntryView>) -> ListState {
    if done.len() == 0 {
        empty_state()
    } else {
        ListState {
            entries: done.drop_last(),
            path: Some(done.last().path),
            branch: done.last().branch,
            head: Some(done.last().head),
        }
    }
}

proof fn lemma_head_read(done: Seq<EntryView>, e: EntryView)
    requires
        listable(e),
    ensures
        read_from(pending(done), head_lines(e)) == pending(done.push(e)),
{
    lemma_literals();
    let w = worktree_prefix() + e.path;
    let h = head_prefix() + e.head;
    let b = branch_line(e.branch);
    let l1 = seq![w];
    let l2 = seq![w, h];
    let l3 = seq![w, h, b];
    assert(head_lines(e) =~= l3);
    assert(l3.drop_last() =~= l2);
    assert(l2.drop_last() =~= l1);
    assert(l1.drop_last() =~= Seq::<Seq<char>>::empty());
    let st0 = pending(done);
    // the `worktree` line
    lemma_starts(worktree_prefix(), e.path);
    if done.len() > 0 {
        assert(done.drop_last().push(done.last()) =~= done);
    }
    let f = flush(st0);
    assert(f.entries == done && f.path is None && f.head is None && f.branch is None);
    assert(trim_start_matches(w, worktree_prefix()) == trim_start_matches(
        e.path,
        worktree_prefix(),
    ));
    assert(trim_start_matches(e.path, worktree_prefix()) == e.path);
    let st1 = ListState { entries: done, path: Some(e.path), branch: None, head: None };
    assert(list_step(st0, w) == st1);
    assert(read_from(st0, l1.drop_last()) == st0);
    assert(l1.last() == w);
    assert(read_from(st0, l1) == st1);
    // the `HEAD` line
    lemma_not_starts(h, worktree_prefix());
    lemma_starts(head_prefix(), e.head);
    let st2 = ListState { entries: done, path: Some(e.path), branch: None, head: Some(e.head) };
    assert(list_step(st1, h) == st2);
    assert(read_from(st0, l2) == st2);
    // the `branch` or `detached` line
    lemma_not_starts(b, worktree_prefix());
    lemma_not_starts(b, head_prefix());
    match e.branch {
        Some(br) => {
            lemma_starts(branch_prefix(), heads_prefix() + br);
            assert(b =~= branch_prefix() + (heads_prefix() + br));
            lemma_starts(heads_prefix(), br);
            assert(branch_name(heads_prefix() + br) == br);
        },
        None => {
            lemma_not_starts(b, branch_prefix());
        },
    }
    let st3 = ListState { entries: done, path: Some(e.path), branch: e.branch, head: Some(e.head) };
    assert(list_step(st2, b) == st3);
    assert(read_from(st0, l3) == st3);
    assert(done.push(e).drop_last() =~= done);
}

proof fn lemma_stanza_read(done: Seq<EntryView>, s: Stanza)
    requires
        listable_stanza(s),
    ensures
        read_from(pending(done), stanza_lines(s)) == pending(done.push(s.entry)),
{
    lemma_literals();
    let tail = s.extras + seq![Seq::<char>::empty()];
    assert(stanza_lines(s) =~= head_lines(s.entry) + tail);
    let empty = Seq::<char>::empty();
    lemma_not_starts(empty, worktree_prefix());
    lemma_not_starts(empty, head_prefix());
    lemma_not_starts(empty, branch_prefix());
    assert(empty != "detached"@);
    assert forall|i: int| 0 <= i < tail.len() implies ignored_line(#[trigger] tail[i]) by {
        if i < s.extras.len() {
            assert(tail[i] == s.extras[i]);
        } else {
            assert(tail[i] == empty);
        }
    }
    lemma_read_from_append(pending(done), head_lines(s.entry), tail);
    lemma_head_read(done, s.entry);
    lemma_read_ignored(pending(done.push(s.entry)), tail);
}

proof fn lemma_listing_read(ss: Seq<Stanza>)
    requires
        forall|i: int| 0 <= i < ss.len() ==> listable_stanza(#[trigger] ss[i]),
    ensures
        read_lines(listing_lines(ss)) == pending(stanza_entries(ss)),
    decreases ss.len(),
{
    if ss.len() == 0 {
        assert(stanza_entries(ss) =~= Seq::<EntryView>::empty());
    } else {
        let init = ss.drop_last();
        assert forall|i: int| 0 <= i < init.len() implies listable_stanza(#[trigger] init[i]) by {
            assert(init[i] == ss[i]);
        }
        lemma_listing_read(init);
        lemma_read_from_append(empty_state(), listing_lines(init), stanza_lines(ss.last()));
        lemma_stanza_read(stanza_entries(init), ss.last());
        assert(stanza_entries(init).push(ss.last().entry) =~= stanza_entries(ss));
    }
}

proof fn lemma_listing_first(ss: Seq<Stanza>)
    requires
        ss.len() > 0,
    ensures
        listing_lines(ss).len() > 0,
        listing_lines(ss)[0] == worktree_prefix() + ss[0].entry.path,
    decreases ss.len(),
{
    if ss.len() == 1 {
        assert(listing_lines(ss.drop_last()) =~= Seq::<Seq<char>>::empty());
        assert(listing_lines(ss) =~= stanza_lines(ss[0]));
    } else {
        lemma_listing_first(ss.drop_last());
        assert(ss.drop_last()[0] == ss[0]);
    }
}

proof fn lemma_parse_of_lines(ss: Seq<Stanza>, ls: Seq<Seq<char>>)
    requires
        forall|i: int| 0 <= i < ss.len() ==> listable_stanza(#[trigger] ss[i]),
        ls == listing_lines(ss),
    ensures
        flush(read_lines(ls)).entries == stanza_entries(ss),
        ss.len() > 0 ==> first_worktree(ls) == Some(ss[0].entry.path),
{
    lemma_listing_read(ss);
    let es = stanza_entries(ss);
    if es.len() > 0 {
        assert(es.drop_last().push(es.last()) =~= es);
        lemma_listing_first(ss);
        lemma_literals();
        lemma_starts(worktree_prefix(), ss[0].entry.path);
        assert(listable_stanza(ss[0]));
        assert(trim_start_matches(ls[0], worktree_prefix()) == trim_start_matches(
            ss[0].entry.path,
            worktree_prefix(),
        ));
    }
}

/// Reading back what git writes: parsing the porcelain listing of worktrees
/// whose fields read back as single lines (no line feed, and no carriage return
/// at the end; one elsewhere is kept) and whose paths do not begin with
/// `worktree ` gives back exactly those worktrees, in order, whatever further
/// lines (`locked`, `prunable ...`) their stanzas carry; the first of them is
/// the main worktree.
pub proof fn lemma_worktree_list_round_trip(ss: Seq<Stanza>)
    requires
        forall|i: int| 0 <= i < ss.len() ==> listable_stanza(#[trigger] ss[i]),
    ensures
        parse_worktrees(porcelain(ss)) == stanza_entries(ss),
        ss.len() > 0 ==> first_worktree(lines(porcelain(ss))) == Some(ss[0].entry.path),
{
    let ls = listing_lines(ss);
    lemma_listing_single(ss);
    lemma_lines_text(ls, Seq::<char>::empty());
    assert(porcelain(ss) + Seq::<char>::empty() =~= porcelain(ss));
    assert(lines(Seq::<char>::empty()) =~= Seq::<Seq<char>>::empty());
    assert(ls + Seq::<Seq<char>>::empty() =~= ls);
    lemma_parse_of_lines(ss, ls);
}

/// The lines left of text written line by line once its trailing whitespace
/// is trimmed away: lines of whitespace at the end go, and the last line with
/// another character loses its trailing whitespace.
pub open spec fn trimmed_lines(m: Seq<Seq<char>>) -> Seq<Seq<char>>
    decreases m.len(),
{
    if m.len() == 0 {
        seq![]
    } else if !all_whitespace(m.last()) {
        m.drop_last().push(trim_end(m.last()))
    } else {
        trimmed_lines(m.drop_last())
    }
}

proof fn lemma_lines_trimmed(m: Seq<Seq<char>>)
    requires
        forall|i: int| 0 <= i < m.len() ==> single_line(#[trigger] m[i]),
    ensures
        lines(trim_end(text_of(m))) == trimmed_lines(m),
    decreases m.len(),
{
    if m.len() == 0 {
        assert(trim_end(text_of(m)) == Seq::<char>::empty());
        assert(lines(Seq::<char>::empty()) =~= Seq::<Seq<char>>::empty());
    } else {
        let init = m.drop_last();
        let x = m.last();
        assert forall|i: int| 0 <= i < init.len() implies single_line(#[trigger] init[i]) by {
            assert(init[i] == m[i]);
        }
        assert(single_line(x));
        lemma_text_append(init, seq![x]);
        assert(init + seq![x] =~= m);
        assert(seq![x].drop_first() =~= Seq::<Seq<char>>::empty());
        assert(text_of(seq![x].drop_first()) == Seq::<char>::empty());
        assert(text_of(seq![x]) == x + newline_seq() + text_of(seq![x].drop_first()));
        assert(text_of(seq![x]) =~= x + newline_seq());
        assert(all_whitespace(newline_seq())) by {
            assert(is_whitespace('\n'));
        }
        if all_whitespace(x) {
            assert(all_whitespace(x + newline_seq())) by {
                assert forall|i: int| 0 <= i < (x + newline_seq()).len() implies is_whitespace(
                    #[trigger] (x + newline_seq())[i],
                ) by {
                    if i < x.len() {
                        assert((x + newline_seq())[i] == x[i]);
                    } else {
                        assert(is_whitespace('\n'));
                    }
                }
            }
            lemma_trim_end_whitespace(text_of(init), x + newline_seq());
            lemma_lines_trimmed(init);
        } else {
            assert(!all_whitespace(x + newline_seq())) by {
                let i = choose|i: int| 0 <= i < x.len() && !is_whitespace(#[trigger] x[i]);
                assert((x + newline_seq())[i] == x[i]);
            }
            lemma_trim_end_visible(text_of(init), x + newline_seq());
            lemma_trim_end_whitespace(x, newline_seq());
            lemma_trim_end_visible(Seq::<char>::empty(), x);
            let t = trim_end(x);
            assert(text_of(init) + (x + newline_seq()) =~= text_of(m));
            lemma_lines_text(init, t);
            assert forall|j: int| 0 <= j < t.len() implies !newline(#[trigger] t[j]) by {
                assert(t[j] == x[j]);
            }
            lemma_first_index_unique(t, |c: char| newline(c), t.len() as int);
            assert(lines(t) == seq![t]);
            assert(init + seq![t] =~= init.push(t));
        }
    }
}

/// Whether the stanza's last lines read as before once trailing whitespace is
/// trimmed from the listing: `b` is its branch line and `ex` the lines after
/// it. The last line with a character other than whitespace loses its trailing
/// whitespace, so it must still be passed over, or, if it is the branch line,
/// must end with such a character.
pub open spec fn trims_cleanly(b: Seq<char>, ex: Seq<Seq<char>>) -> bool
    decreases ex.len(),
{
    if ex.len() == 0 {
        ends_visibly(b)
    } else if !all_whitespace(ex.last()) {
        ignored_line(trim_end(ex.last()))
    } else {
        trims_cleanly(b, ex.drop_last())
    }
}

proof fn lemma_read_trimmed(p: Seq<Seq<char>>, h: Seq<Seq<char>>, e: Seq<Seq<char>>)
    requires
        h.len() > 0,
        forall|i: int| 0 <= i < e.len() ==> ignored_line(#[trigger] e[i]),
        trims_cleanly(h.last(), e),
    ensures
        read_lines(trimmed_lines(p + h + e)) == read_lines(p + h),
        trimmed_lines(p + h + e).len() >= (p + h).len(),
        forall|i: int|
            0 <= i < (p + h).len() - 1 ==> #[trigger] trimmed_lines(p + h + e)[i] == (p + h)[i],
    decreases e.len(),
{
    let m = p + h + e;
    if e.len() == 0 {
        let b = h.last();
        assert(m =~= p + h);
        assert(m.last() == b);
        assert(!all_whitespace(b)) by {
            assert(!is_whitespace(b[b.len() - 1]));
        }
        assert(trim_end(b) == b);
        assert(m.drop_last().push(b) =~= m);
    } else {
        let d = e.drop_last();
        assert(m.last() == e.last());
        assert(m.drop_last() =~= p + h + d);
        assert forall|i: int| 0 <= i < d.len() implies ignored_line(#[trigger] d[i]) by {
            assert(d[i] == e[i]);
        }
        if all_whitespace(e.last()) {
            lemma_read_trimmed(p, h, d);
        } else {
            let t = trim_end(e.last());
            assert(ignored_line(t));
            assert(trimmed_lines(m) == (p + h + d).push(t));
            assert((p + h + d).push(t).drop_last() =~= p + h + d);
            assert(list_step(read_lines(p + h + d), t) == read_lines(p + h + d));
            lemma_read_from_append(empty_state(), p + h, d);
            assert(p + h + d =~= (p + h) + d);
            lemma_read_ignored(read_lines(p + h), d);
            assert forall|i: int| 0 <= i < (p + h).len() - 1 implies #[trigger] trimmed_lines(
                m,
            )[i] == (p + h)[i] by {
                assert(trimmed_lines(m)[i] == (p + h + d)[i]);
            }
        }
    }
}

proof fn lemma_porcelain_first(ss: Seq<Stanza>)
    requires
        ss.len() > 0,
    ensures
        porcelain(ss).len() > 0,
        porcelain(ss)[0] == 'w',
{
    lemma_literals();
    lemma_listing_first(ss);
    let ls = listing_lines(ss);
    let w = ls[0];
    assert(w[0] == 'w');
    assert(text_of(ls) == w + newline_seq() + text_of(ls.drop_first()));
}

/// The same, for the listing as the tool parses it, once surrounding
/// whitespace is trimmed away: the empty line after the last stanza goes, and
/// so does trailing whitespace of the last stanza's last lines, which must then
/// read as they did.
pub proof fn lemma_trimmed_worktree_list_round_trip(ss: Seq<Stanza>)
    requires
        forall|i: int| 0 <= i < ss.len() ==> listable_stanza(#[trigger] ss[i]),
        ss.len() > 0 ==> trims_cleanly(branch_line(ss.last().entry.branch), ss.last().extras),
    ensures
        parse_worktrees(trim(porcelain(ss))) == stanza_entries(ss),
        ss.len() > 0 ==> first_worktree(lines(trim(porcelain(ss)))) == Some(ss[0].entry.path),
{
    if ss.len() == 0 {
        assert(porcelain(ss) == Seq::<char>::empty());
        assert(trim(porcelain(ss)) == Seq::<char>::empty());
        assert(lines(Seq::<char>::empty()) =~= Seq::<Seq<char>>::empty());
        assert(stanza_entries(ss) =~= Seq::<EntryView>::empty());
    } else {
        lemma_literals();
        let ls = listing_lines(ss);
        let last = ss.last();
        let init = ss.drop_last();
        let pl = listing_lines(init);
        let h = head_lines(last.entry);
        let empty = Seq::<char>::empty();
        let e = last.extras + seq![empty];
        assert(ls =~= pl + h + e);
        // trimming touches only the end
        lemma_porcelain_first(ss);
        assert(!is_whitespace('w'));
        assert(trim_start(porcelain(ss)) == porcelain(ss));
        lemma_listing_single(ss);
        lemma_lines_trimmed(ls);
        assert(lines(trim(porcelain(ss))) == trimmed_lines(ls));
        // and what it leaves reads as the full listing did
        lemma_not_starts(empty, worktree_prefix());
        lemma_not_starts(empty, head_prefix());
        lemma_not_starts(empty, branch_prefix());
        assert(empty != "detached"@);
        assert(listable_stanza(last));
        assert forall|i: int| 0 <= i < e.len() implies ignored_line(#[trigger] e[i]) by {
            if i < last.extras.len() {
                assert(e[i] == last.extras[i]);
            } else {
                assert(e[i] == empty);
            }
        }
        assert(e.drop_last() =~= last.extras);
        assert(all_whitespace(e.last()));
        assert(h.last() == branch_line(last.entry.branch));
        lemma_read_trimmed(pl, h, e);
        assert forall|i: int| 0 <= i < init.len() implies listable_stanza(#[trigger] init[i]) by {
            assert(init[i] == ss[i]);
        }
        lemma_listing_read(init);
        lemma_read_from_append(empty_state(), pl, h);
        lemma_head_read(stanza_entries(init), last.entry);
        let es = stanza_entries(ss);
        assert(stanza_entries(init).push(last.entry) =~= es);
        assert(es.drop_last().push(es.last()) =~= es);
        // the first line is still the main worktree's
        lemma_listing_first(ss);
        assert(trimmed_lines(ls)[0] == (pl + h)[0]);
        assert((pl + h)[0] == ls[0]);
        lemma_starts(worktree_prefix(), ss[0].entry.path);
        assert(listable_stanza(ss[0]));
        let t = lines(trim(porcelain(ss)));
        assert(t.len() > 0);
        assert(t[0] == worktree_prefix() + ss[0].entry.path);
        assert(trim_start_matches(t[0], worktree_prefix()) == trim_start_matches(
            ss[0].entry.path,
            worktree_prefix(),
        ));
        assert(first_worktree(t) == Some(ss[0].entry.path));
    }
}

// ---------------------------------------------------------------------------
// `git status --porcelain=v2 --branch`
// ---------------------------------------------------------------------------

/// Status information for a worktree.
#[derive(Debug)]
pub struct WorktreeStatus {
    pub dirty: bool,
    pub ahead: u32,
    pub behind: u32,
}

pub open spec fn ab_prefix() -> Seq<char> {
    "# branch.ab "@
}

/// The whitespace-separated fields after `# branch.ab `.
pub open spec fn ab_fields(line: Seq<char>) -> Seq<Seq<char>> {
    split_whitespace(line.skip(ab_prefix().len() as int))
}

/// A `# branch.ab +<ahead> -<behind>` header with its two fields.
pub open spec fn is_ab_line(line: Seq<char>) -> bool {
    starts_with(line, ab_prefix()) && ab_fields(line).len() == 2
}

/// A count from a `branch.ab` field: the field without its leading `sign`s,
/// read as a `u32`, or 0 when it does not read as one.
pub open spec fn count_field(field: Seq<char>, sign: char) -> u32 {
    match parse_u32(trim_start_matches(field, seq![sign])) {
        Some(n) => n,
        None => 0,
    }
}

/// Ahead and behind counts: those of the last `branch.ab` header with two
/// fields, or zero when there is none.
pub open spec fn ahead_behind(ls: Seq<Seq<char>>) -> (u32, u32)
    decreases ls.len(),
{
    if ls.len() == 0 {
        (0, 0)
    } else if is_ab_line(ls.last()) {
        let f = ab_fields(ls.last());
        (count_field(f[0], '+'), count_field(f[1], '-'))
    } else {
        ahead_behind(ls.drop_last())
    }
}

/// A line that reports a change: any non-empty line that is not a `#` header.
pub open spec fn is_change_line(line: Seq<char>) -> bool {
    line.len() > 0 && line[0] != '#'
}

/// Every non-empty line that does not start with `#` reports a change (an
/// ordinary `1`/`2` entry, an unmerged `u` entry, an untracked `?` file, an
/// ignored `!` file), and no other line does.
pub proof fn lemma_change_lines(line: Seq<char>)
    ensures
        (line.len() > 0 && line[0] != '#') ==> is_change_line(line),
        (line.len() == 0 || line[0] == '#') ==> !is_change_line(line),
{
}

/// One change line anywhere in the output makes the worktree dirty, whatever
/// the other lines are.
pub proof fn lemma_one_change_makes_dirty(ls: Seq<Seq<char>>, i: int)
    requires
        0 <= i < ls.len(),
        ls[i].len() > 0,
        ls[i][0] != '#',
    ensures
        exists|j: int| 0 <= j < ls.len() && is_change_line(#[trigger] ls[j]),
{
    assert(is_change_line(ls[i]));
}

fn count_of(field: &[char], sign: char) -> (n: u32)
    ensures
        n == count_field(field@, sign),
{
    let mut s: Vec<char> = Vec::new();
    s.push(sign);
    assert(s@ =~= seq![sign]);
    let digits = trim_start_matches_of(field, &s);
    match parse_u32_of(&digits) {
        Some(n) => n,
        None => 0,
    }
}

/// Parses the output of `git status --porcelain=v2 --branch`.
pub fn status(output: &str) -> (st: WorktreeStatus)
    ensures
        st.dirty == exists|i: int|
            0 <= i < lines(output@).len() && is_change_line(#[trigger] lines(output@)[i]),
        st.dirty == exists|i: int|
            0 <= i < lines(output@).len() && #[trigger] lines(output@)[i].len() > 0 && lines(
                output@,
            )[i][0] != '#',
        (st.ahead, st.behind) == ahead_behind(lines(output@)),
{
    let chars = chars_of(output);
    let ls = lines_of(&chars);
    let ab_p = chars_of("# branch.ab ");
    let ghost lv = views(ls@);
    let mut dirty = false;
    let mut ahead: u32 = 0;
    let mut behind: u32 = 0;
    let mut i: usize = 0;
    while i < ls.len()
        invariant
            0 <= i <= ls@.len(),
            lv == views(ls@),
            lv == lines(output@),
            chars@ == output@,
            ab_p@ == ab_prefix(),
            dirty == exists|j: int| 0 <= j < i && is_change_line(#[trigger] lv[j]),
            (ahead, behind) == ahead_behind(lv.take(i as int)),
        decreases ls@.len() - i,
    {
        let line = &ls[i];
        assert(line@ == lv[i as int]);
        assert(line@.skip(0) =~= line@);
        assert(lv.take(i + 1).drop_last() =~= lv.take(i as int));
        if matches_at(line, 0, &ab_p) {
            proof {
                reveal_strlit("# branch.ab ");
                assert(line@[0] == line@.take(ab_p@.len() as int)[0]);
                assert(!is_change_line(lv[i as int]));
            }
            let rest = slice_of(line, ab_p.len(), line.len());
            assert(rest@ =~= line@.skip(ab_p@.len() as int));
            let fields = split_whitespace_of(&rest);
            if fields.len() == 2 {
                assert(views(fields@)[0] == fields@[0]@);
                assert(views(fields@)[1] == fields@[1]@);
                ahead = count_of(&fields[0], '+');
                behind = count_of(&fields[1], '-');
            }
        } else if line.len() > 0 && line[0] != '#' {
            assert(is_change_line(lv[i as int]));
            dirty = true;
        } else {
            assert(!is_change_line(lv[i as int]));
        }
        i = i + 1;
    }
    assert(lv.take(i as int) =~= lv);
    WorktreeStatus { dirty, ahead, behind }
}

/// The `# branch.ab` header git writes for a branch `a` commits ahead of its
/// upstream and `b` behind it.
pub open spec fn ab_line(a: u32, b: u32) -> Seq<char> {
    ab_prefix() + seq!['+'] + decimal(a as nat) + seq![' ', '-'] + decimal(b as nat)
}

proof fn lemma_split_two_fields(x: Seq<char>, y: Seq<char>)
    requires
        x.len() > 0,
        y.len() > 0,
        forall|i: int| 0 <= i < x.len() ==> !is_whitespace(#[trigger] x[i]),
        forall|i: int| 0 <= i < y.len() ==> !is_whitespace(#[trigger] y[i]),
    ensures
        split_whitespace(x + seq![' '] + y) == seq![x, y],
{
    let s = x + seq![' '] + y;
    assert(s[0] == x[0]);
    assert(trim_start(s) == s);
    assert forall|j: int| 0 <= j < x.len() implies !whitespace(#[trigger] s[j]) by {
        assert(s[j] == x[j]);
    }
    assert(s[x.len() as int] == ' ');
    lemma_first_index_unique(s, |c: char| whitespace(c), x.len() as int);
    assert(s.take(x.len() as int) =~= x);
    let r = s.skip(x.len() as int);
    assert(r =~= seq![' '] + y);
    assert(r.drop_first() =~= y);
    assert(trim_start(y) == y);
    assert(trim_start(r) == y);
    assert forall|j: int| 0 <= j < y.len() implies !whitespace(#[trigger] y[j]) by {}
    lemma_first_index_unique(y, |c: char| whitespace(c), y.len() as int);
    assert(y.take(y.len() as int) =~= y);
    assert(y.skip(y.len() as int) =~= Seq::<char>::empty());
    assert(split_whitespace(Seq::<char>::empty()) == Seq::<Seq<char>>::empty());
    assert(split_whitespace(r) =~= seq![y]);
    assert(split_whitespace(s) =~= seq![x, y]);
}

proof fn lemma_count_field(n: u32, sign: char)
    requires
        !is_digit(sign),
    ensures
        count_field(seq![sign] + decimal(n as nat), sign) == n,
{
    let d = decimal(n as nat);
    lemma_decimal_digits(n as nat);
    lemma_parse_decimal(n);
    lemma_starts(seq![sign], d);
    assert(is_digit(d[0]));
    lemma_not_starts(d, seq![sign]);
    assert(trim_start_matches(d, seq![sign]) == d);
    assert(trim_start_matches(seq![sign] + d, seq![sign]) == d);
}

/// Reading back what git writes: a `# branch.ab +<a> -<b>` header is not a
/// change, and after it the status reports `a` commits ahead and `b` behind,
/// whatever came before.
pub proof fn lemma_status_reads_counts(ls: Seq<Seq<char>>, a: u32, b: u32)
    ensures
        !is_change_line(ab_line(a, b)),
        ahead_behind(ls.push(ab_line(a, b))) == (a, b),
{
    reveal_strlit("# branch.ab ");
    let da = decimal(a as nat);
    let db = decimal(b as nat);
    lemma_decimal_digits(a as nat);
    lemma_decimal_digits(b as nat);
    let x = seq!['+'] + da;
    let y = seq!['-'] + db;
    let rest = x + seq![' '] + y;
    let line = ab_line(a, b);
    assert(line =~= ab_prefix() + rest);
    lemma_starts(ab_prefix(), rest);
    assert(line[0] == '#');
    assert forall|i: int| 0 <= i < x.len() implies !is_whitespace(#[trigger] x[i]) by {
        if i > 0 {
            assert(x[i] == da[i - 1]);
        }
    }
    assert forall|i: int| 0 <= i < y.len() implies !is_whitespace(#[trigger] y[i]) by {
        if i > 0 {
            assert(y[i] == db[i - 1]);
        }
    }
    lemma_split_two_fields(x, y);
    assert(ab_fields(line) == seq![x, y]);
    assert(is_ab_line(line));
    lemma_count_field(a, '+');
    lemma_count_field(b, '-');
    assert(ls.push(line).last() == line);
}

// ---------------------------------------------------------------------------
// Common directory
// ---------------------------------------------------------------------------

/// The `.git` common directory from the output of `git rev-parse
/// --git-common-dir`, which may be relative to the working directory `cwd`;
/// it is absolute whenever `cwd` is.
pub fn common_dir(rel: &str, cwd: &str) -> (r: String)
    ensures
        is_absolute(rel@) ==> r@ == rel@,
        !is_absolute(rel@) ==> r@ == joined(cwd@, rel@),
        is_absolute(cwd@) ==> is_absolute(r@),
{
    if is_absolute_path(rel) {
        owned(rel)
    } else {
        let r = join(cwd, rel);
        proof {
            if is_absolute(cwd@) {
                assert(r@.take(cwd@.len() as int)[0] == cwd@[0]);
            }
        }
        r
    }
}

} // verus!
