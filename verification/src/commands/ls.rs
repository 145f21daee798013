//! `wt ls`: list the worktrees with their status.
use vstd::prelude::*;

use crate::git::{EntryView, WorktreeEntry, WorktreeStatus};
use crate::paths::{file_name, file_name_of};
use crate::style::{
    bold, cyan, dimmed, fg, green, lemma_strip_fg, lemma_strip_plain, no_escape, paint_bold,
    paint_cyan, paint_dimmed, paint_green, paint_red, paint_yellow, red, strip_sgr, yellow,
};
use crate::text::{
    chars_of, decimal, decimal_of, is_digit, lemma_decimal_digits, lex_lt, lex_lt_of, lemma_lex_lt_asymmetric,
    lemma_lex_lt_transitive, opt_str, owned, pad_right, pad_right_of, push_all, string_of,
};

verus! {

/// One line of the listing (and the path shown under it).
#[derive(Debug)]
pub struct Row {
    pub name: String,
    pub path: String,
    pub branch: String,
    pub dirty: bool,
    pub ahead: u32,
    pub behind: u32,
}

/// A row as plain values.
pub struct RowView {
    pub name: Seq<char>,
    pub path: Seq<char>,
    pub branch: Seq<char>,
    pub dirty: bool,
    pub ahead: u32,
    pub behind: u32,
}

impl View for Row {
    type V = RowView;

    open spec fn view(&self) -> RowView {
        RowView {
            name: self.name@,
            path: self.path@,
            branch: self.branch@,
            dirty: self.dirty,
            ahead: self.ahead,
            behind: self.behind,
        }
    }
}

pub open spec fn row_views(v: Seq<Row>) -> Seq<RowView> {
    v.map_values(|r: Row| r@)
}

// ---------------------------------------------------------------------------
// Rows
// ---------------------------------------------------------------------------

/// The row of a worktree: named by the last component of its path (`name`),
/// or by the whole path when there is none; `(detached)` in place of a missing
/// branch; a clean status with no commits ahead or behind when its status
/// could not be read (`st` is `None`).
pub open spec fn row_of(name: Option<Seq<char>>, e: EntryView, st: Option<WorktreeStatus>) -> RowView {
    RowView {
        name: match name {
            Some(n) => n,
            None => e.path,
        },
        path: e.path,
        branch: match e.branch {
            Some(b) => b,
            None => "(detached)"@,
        },
        dirty: match st {
            Some(s) => s.dirty,
            None => false,
        },
        ahead: match st {
            Some(s) => s.ahead,
            None => 0,
        },
        behind: match st {
            Some(s) => s.behind,
            None => 0,
        },
    }
}

/// A row shows the worktree's status as it was read: dirty exactly when the
/// worktree has uncommitted changes, whatever it is ahead or behind by, and
/// the counts ahead and behind as they are; a status that could not be read
/// shows as clean and even. Its path, name and branch come from the entry.
pub proof fn lemma_row_shows_status(
    name: Option<Seq<char>>,
    e: EntryView,
    st: Option<WorktreeStatus>,
)
    ensures
        st matches Some(s) ==> row_of(name, e, st).dirty == s.dirty && row_of(name, e, st).ahead
            == s.ahead && row_of(name, e, st).behind == s.behind,
        st is None ==> !row_of(name, e, st).dirty && row_of(name, e, st).ahead == 0 && row_of(
            name,
            e,
            st,
        ).behind == 0,
        row_of(name, e, st).path == e.path,
        name matches Some(n) ==> row_of(name, e, st).name == n,
        name is None ==> row_of(name, e, st).name == e.path,
        e.branch matches Some(b) ==> row_of(name, e, st).branch == b,
{
}

/// The row of the worktree `entry`, given the last component of its path
/// (`file_name`) and its status, if that could be read.
pub fn row(file_name: Option<String>, entry: &WorktreeEntry, status: Option<WorktreeStatus>) -> (r:
    Row)
    ensures
        r@ == row_of(opt_str(file_name), entry@, status),
        status matches Some(s) ==> r.dirty == s.dirty && r.ahead == s.ahead && r.behind
            == s.behind,
        status is None ==> !r.dirty && r.ahead == 0 && r.behind == 0,
        r.path@ == entry.path@,
{
    let name = match file_name {
        Some(n) => n,
        None => entry.path.clone(),
    };
    let branch = match &entry.branch {
        Some(b) => b.clone(),
        None => owned("(detached)"),
    };
    let (dirty, ahead, behind) = match status {
        Some(s) => (s.dirty, s.ahead, s.behind),
        None => (false, 0, 0),
    };
    Row { name, path: entry.path.clone(), branch, dirty, ahead, behind }
}

/// The row of the worktree `entry`, named after the last component of its path.
pub fn row_for(entry: &WorktreeEntry, status: Option<WorktreeStatus>) -> (r: Row)
    ensures
        r@ == row_of(file_name_of(entry.path@), entry@, status),
        status matches Some(s) ==> r.dirty == s.dirty && r.ahead == s.ahead && r.behind
            == s.behind,
        status is None ==> !r.dirty && r.ahead == 0 && r.behind == 0,
        r.path@ == entry.path@,
{
    row(file_name(entry.path.as_str()), entry, status)
}

// ---------------------------------------------------------------------------
// Status column
// ---------------------------------------------------------------------------

/// `●<n> <what>` in yellow.
pub open spec fn count_text(n: u32, what: Seq<char>) -> Seq<char> {
    yellow(seq!['\u{25cf}'] + decimal(n as nat) + seq![' '] + what)
}

/// The status column: `dirty` in red or `clean` in green, then the commits
/// ahead and behind when there are any, separated by two spaces.
pub open spec fn status_text(r: RowView) -> Seq<char> {
    (if r.dirty {
        red("dirty"@)
    } else {
        green("clean"@)
    }) + (if r.ahead > 0 {
        "  "@ + count_text(r.ahead, "ahead"@)
    } else {
        seq![]
    }) + (if r.behind > 0 {
        "  "@ + count_text(r.behind, "behind"@)
    } else {
        seq![]
    })
}

/// A count of commits as it reads on screen: `●`, the number, a space and
/// `what`.
pub open spec fn plain_count(n: u32, what: Seq<char>) -> Seq<char> {
    seq!['\u{25cf}'] + decimal(n as nat) + seq![' '] + what
}

/// The status column as it reads on screen: `dirty` or `clean`, then the
/// commits ahead and behind when there are any, separated by two spaces.
pub open spec fn plain_status(r: RowView) -> Seq<char> {
    (if r.dirty {
        "dirty"@
    } else {
        "clean"@
    }) + (if r.ahead > 0 {
        "  "@ + plain_count(r.ahead, "ahead"@)
    } else {
        seq![]
    }) + (if r.behind > 0 {
        "  "@ + plain_count(r.behind, "behind"@)
    } else {
        seq![]
    })
}

proof fn lemma_plain_count(n: u32, what: Seq<char>)
    requires
        no_escape(what),
    ensures
        no_escape(plain_count(n, what)),
{
    lemma_decimal_digits(n as nat);
    let t = plain_count(n, what);
    let d = decimal(n as nat);
    assert forall|i: int| 0 <= i < t.len() implies t[i] != '\x1b' by {
        if i == 0 {
        } else if i < 1 + d.len() {
            assert(t[i] == d[i - 1]);
            assert(is_digit(d[i - 1]));
        } else if i == 1 + d.len() {
        } else {
            assert(t[i] == what[i - 2 - d.len()]);
        }
    }
}

proof fn lemma_strip_count(n: u32, what: Seq<char>, rest: Seq<char>)
    requires
        no_escape(what),
    ensures
        strip_sgr("  "@ + count_text(n, what) + rest) == "  "@ + plain_count(n, what) + strip_sgr(
            rest,
        ),
{
    reveal_strlit("  ");
    lemma_plain_count(n, what);
    let code = seq!['3', '3'];
    assert forall|i: int| 0 <= i < code.len() implies code[i] != 'm' by {}
    assert("  "@ + count_text(n, what) + rest =~= "  "@ + (yellow(plain_count(n, what)) + rest));
    lemma_strip_plain("  "@, yellow(plain_count(n, what)) + rest);
    lemma_strip_fg(code, plain_count(n, what), rest);
    assert("  "@ + (plain_count(n, what) + strip_sgr(rest)) =~= "  "@ + plain_count(n, what)
        + strip_sgr(rest));
}

/// Without its colour codes, the status column reads `dirty` or `clean`, then
/// `●N ahead` and `●N behind` when there are commits ahead or behind, each
/// after two spaces.
pub proof fn lemma_status_text_plain(r: RowView)
    ensures
        strip_sgr(status_text(r)) == plain_status(r),
{
    reveal_strlit("dirty");
    reveal_strlit("clean");
    reveal_strlit("ahead");
    reveal_strlit("behind");
    let first = if r.dirty {
        "dirty"@
    } else {
        "clean"@
    };
    let code = if r.dirty {
        seq!['3', '1']
    } else {
        seq!['3', '2']
    };
    assert forall|i: int| 0 <= i < code.len() implies code[i] != 'm' by {}
    let a = if r.ahead > 0 {
        "  "@ + count_text(r.ahead, "ahead"@)
    } else {
        seq![]
    };
    let b = if r.behind > 0 {
        "  "@ + count_text(r.behind, "behind"@)
    } else {
        seq![]
    };
    let pa = if r.ahead > 0 {
        "  "@ + plain_count(r.ahead, "ahead"@)
    } else {
        seq![]
    };
    let pb = if r.behind > 0 {
        "  "@ + plain_count(r.behind, "behind"@)
    } else {
        seq![]
    };
    assert(status_text(r) =~= fg(code, first) + (a + b));
    lemma_strip_fg(code, first, a + b);
    assert(strip_sgr(b) == pb) by {
        if r.behind > 0 {
            lemma_strip_count(r.behind, "behind"@, seq![]);
            assert(b + Seq::<char>::empty() =~= b);
            assert(pb + Seq::<char>::empty() =~= pb);
        }
    }
    assert(strip_sgr(a + b) == pa + pb) by {
        if r.ahead > 0 {
            lemma_strip_count(r.ahead, "ahead"@, b);
        } else {
            assert(a + b =~= b);
            assert(pa + pb =~= pb);
        }
    }
    assert(first + (pa + pb) =~= plain_status(r));
}

fn count_string(n: u32, what: &str) -> (s: String)
    ensures
        s@ == count_text(n, what@),
{
    let mut t: Vec<char> = Vec::new();
    t.push('\u{25cf}');
    push_all(&mut t, &decimal_of(n));
    t.push(' ');
    push_all(&mut t, &chars_of(what));
    assert(t@ =~= seq!['\u{25cf}'] + decimal(n as nat) + seq![' '] + what@);
    paint_yellow(string_of(&t).as_str())
}

/// The status column of `row`.
pub fn build_status(row: &Row) -> (s: String)
    ensures
        s@ == status_text(row@),
{
    let mut s = if row.dirty {
        paint_red("dirty")
    } else {
        paint_green("clean")
    };
    let ghost first = s@;
    if row.ahead > 0 {
        s.append("  ");
        s.append(count_string(row.ahead, "ahead").as_str());
    }
    let ghost second = s@;
    if row.behind > 0 {
        s.append("  ");
        s.append(count_string(row.behind, "behind").as_str());
    }
    proof {
        let a = if row.ahead > 0 {
            "  "@ + count_text(row.ahead, "ahead"@)
        } else {
            Seq::<char>::empty()
        };
        let b = if row.behind > 0 {
            "  "@ + count_text(row.behind, "behind"@)
        } else {
            Seq::<char>::empty()
        };
        assert(second =~= first + a);
        assert(s@ =~= second + b);
        assert(s@ =~= first + a + b);
    }
    s
}

// ---------------------------------------------------------------------------
// Column widths
// ---------------------------------------------------------------------------

/// `str::len`: the length of the UTF-8 encoding, in bytes.
pub open spec fn byte_len(s: Seq<char>) -> usize {
    vstd::utf8::encode_utf8(s).len() as usize
}

/// The longest byte length among the names (0 without rows).
pub open spec fn max_name_len(rows: Seq<RowView>) -> usize
    decreases rows.len(),
{
    if rows.len() == 0 {
        0
    } else {
        let m: usize = max_name_len(rows.drop_last());
        let b: usize = byte_len(rows.last().name);
        if b > m {
            b
        } else {
            m
        }
    }
}

/// The longest byte length among the branches (0 without rows).
pub open spec fn max_branch_len(rows: Seq<RowView>) -> usize
    decreases rows.len(),
{
    if rows.len() == 0 {
        0
    } else {
        let m: usize = max_branch_len(rows.drop_last());
        let b: usize = byte_len(rows.last().branch);
        if b > m {
            b
        } else {
            m
        }
    }
}

/// The width of the name column: the longest name, and at least 4.
pub open spec fn name_width(rows: Seq<RowView>) -> usize {
    if max_name_len(rows) > 4 {
        max_name_len(rows)
    } else {
        4
    }
}

/// The width of the branch column: the longest branch, and at least 6.
pub open spec fn branch_width(rows: Seq<RowView>) -> usize {
    if max_branch_len(rows) > 6 {
        max_branch_len(rows)
    } else {
        6
    }
}

fn widths(rows: &Vec<Row>) -> (w: (usize, usize))
    ensures
        w.0 == name_width(row_views(rows@)),
        w.1 == branch_width(row_views(rows@)),
{
    let ghost rv = row_views(rows@);
    let mut mn: usize = 0;
    let mut mb: usize = 0;
    let mut i: usize = 0;
    while i < rows.len()
        invariant
            0 <= i <= rows@.len(),
            rv == row_views(rows@),
            mn == max_name_len(rv.take(i as int)),
            mb == max_branch_len(rv.take(i as int)),
        decreases rows@.len() - i,
    {
        let r = &rows[i];
        assert(rv.take(i + 1).drop_last() =~= rv.take(i as int));
        assert(rv.take(i + 1).last() == r@);
        let n: usize = r.name.as_str().len();
        let b: usize = r.branch.as_str().len();
        if n > mn {
            mn = n;
        }
        if b > mb {
            mb = b;
        }
        i = i + 1;
    }
    assert(rv.take(i as int) =~= rv);
    (if mn > 4 {
        mn
    } else {
        4
    }, if mb > 6 {
        mb
    } else {
        6
    })
}

// ---------------------------------------------------------------------------
// Listing
// ---------------------------------------------------------------------------

/// The header line.
pub open spec fn header(nw: usize, bw: usize) -> Seq<char> {
    bold(pad_right("NAME"@, nw as nat)) + "  "@ + bold(pad_right("BRANCH"@, bw as nat)) + "  "@
        + bold("STATUS"@) + seq!['\n']
}

/// The two lines of a row: name, branch and status, then the path, dimmed,
/// under the branch column.
pub open spec fn row_lines(r: RowView, nw: usize, bw: usize) -> Seq<char> {
    green(pad_right(r.name, nw as nat)) + "  "@ + cyan(pad_right(r.branch, bw as nat)) + "  "@
        + status_text(r) + seq!['\n'] + pad_right(seq![], nw as nat) + "  "@ + dimmed(r.path)
        + seq!['\n']
}

/// The lines of `rows`, in order.
pub open spec fn body(rows: Seq<RowView>, nw: usize, bw: usize) -> Seq<char>
    decreases rows.len(),
{
    if rows.len() == 0 {
        seq![]
    } else {
        body(rows.drop_last(), nw, bw) + row_lines(rows.last(), nw, bw)
    }
}

/// The listing printed for `rows`, in the order given.
pub open spec fn listing(rows: Seq<RowView>) -> Seq<char> {
    header(name_width(rows), branch_width(rows)) + body(
        rows,
        name_width(rows),
        branch_width(rows),
    )
}

fn padded(s: &str, w: usize) -> (r: String)
    ensures
        r@ == pad_right(s@, w as nat),
{
    string_of(&pad_right_of(&chars_of(s), w))
}

fn push_row(out: &mut String, r: &Row, nw: usize, bw: usize)
    ensures
        final(out)@ == old(out)@ + row_lines(r@, nw, bw),
{
    out.append(paint_green(padded(r.name.as_str(), nw).as_str()).as_str());
    out.append("  ");
    out.append(paint_cyan(padded(r.branch.as_str(), bw).as_str()).as_str());
    out.append("  ");
    out.append(build_status(r).as_str());
    out.append("\n");
    out.append(padded("", nw).as_str());
    out.append("  ");
    out.append(paint_dimmed(r.path.as_str()).as_str());
    out.append("\n");
    proof {
        reveal_strlit("\n");
        reveal_strlit("");
        assert("\n"@ =~= seq!['\n']);
        assert(""@ =~= Seq::<char>::empty());
        assert(final(out)@ =~= old(out)@ + row_lines(r@, nw, bw));
    }
}

/// The listing for `rows`, in the order given.
pub fn render(rows: &Vec<Row>) -> (out: String)
    ensures
        out@ == listing(row_views(rows@)),
{
    let ghost rv = row_views(rows@);
    let (nw, bw) = widths(rows);
    let mut out = paint_bold(padded("NAME", nw).as_str());
    out.append("  ");
    out.append(paint_bold(padded("BRANCH", bw).as_str()).as_str());
    out.append("  ");
    out.append(paint_bold("STATUS").as_str());
    out.append("\n");
    proof {
        reveal_strlit("\n");
        assert("\n"@ =~= seq!['\n']);
        assert(out@ =~= header(nw, bw));
    }
    let mut i: usize = 0;
    assert(rv.take(0) =~= Seq::<RowView>::empty());
    while i < rows.len()
        invariant
            0 <= i <= rows@.len(),
            rv == row_views(rows@),
            out@ == header(nw, bw) + body(rv.take(i as int), nw, bw),
        decreases rows@.len() - i,
    {
        let ghost before = out@;
        push_row(&mut out, &rows[i], nw, bw);
        assert(rv.take(i + 1).drop_last() =~= rv.take(i as int));
        assert(rv.take(i + 1).last() == rows@[i as int]@);
        assert(out@ =~= header(nw, bw) + body(rv.take(i + 1), nw, bw));
        i = i + 1;
    }
    assert(rv.take(i as int) =~= rv);
    out
}

// ---------------------------------------------------------------------------
// Sorting by name
// ---------------------------------------------------------------------------

/// The rows are in order of their names.
pub open spec fn sorted_by_name(rows: Seq<RowView>) -> bool {
    forall|i: int, j: int| 0 <= i < j < rows.len() ==> !lex_lt(rows[j].name, rows[i].name)
}

/// Inserting `x` before the first row whose name comes after its own keeps
/// the rows in order.
pub proof fn lemma_insert_sorted(s: Seq<RowView>, p: int, x: RowView)
    requires
        sorted_by_name(s),
        0 <= p <= s.len(),
        forall|k: int| 0 <= k < p ==> !lex_lt(x.name, #[trigger] s[k].name),
        p < s.len() ==> lex_lt(x.name, s[p].name),
    ensures
        sorted_by_name(s.insert(p, x)),
{
    let t = s.insert(p, x);
    assert forall|i: int, j: int| 0 <= i < j < t.len() implies !lex_lt(t[j].name, t[i].name) by {
        if j < p {
            assert(t[i] == s[i] && t[j] == s[j]);
        } else if j == p {
            assert(t[i] == s[i] && t[j] == x);
        } else if i < p {
            assert(t[i] == s[i] && t[j] == s[j - 1]);
        } else if i == p {
            assert(t[i] == x && t[j] == s[j - 1]);
            if lex_lt(s[j - 1].name, x.name) {
                if j - 1 == p {
                    lemma_lex_lt_asymmetric(x.name, s[p].name);
                } else {
                    lemma_lex_lt_transitive(s[j - 1].name, x.name, s[p].name);
                }
            }
        } else {
            assert(t[i] == s[i - 1] && t[j] == s[j - 1]);
        }
    }
}

/// The rows ordered by name (the order of `str`); rows with equal names come
/// in no particular order, as statuses gathered concurrently do.
pub fn sort_rows(rows: Vec<Row>) -> (out: Vec<Row>)
    ensures
        sorted_by_name(row_views(out@)),
        row_views(out@).to_multiset() == row_views(rows@).to_multiset(),
{
    broadcast use vstd::seq_lib::group_to_multiset_ensures;

    let ghost all = row_views(rows@);
    let mut rest = rows;
    let mut out: Vec<Row> = Vec::new();
    assert(row_views(out@) =~= Seq::<RowView>::empty());
    while rest.len() > 0
        invariant
            sorted_by_name(row_views(out@)),
            row_views(out@).to_multiset().add(row_views(rest@).to_multiset()) == all.to_multiset(),
        decreases rest@.len(),
    {
        let ghost rest_before = row_views(rest@);
        let ghost out_before = row_views(out@);
        let r = rest.pop().unwrap();
        assert(rest_before =~= row_views(rest@).push(r@));
        let name = chars_of(r.name.as_str());
        let mut p: usize = 0;
        while p < out.len() && !lex_lt_of(&name, &chars_of(out[p].name.as_str()))
            invariant
                0 <= p <= out@.len(),
                out_before == row_views(out@),
                name@ == r@.name,
                forall|k: int| 0 <= k < p ==> !lex_lt(r@.name, #[trigger] out_before[k].name),
            decreases out@.len() - p,
        {
            assert(out_before[p as int] == out@[p as int]@);
            p = p + 1;
        }
        proof {
            if p < out@.len() {
                assert(out_before[p as int] == out@[p as int]@);
            }
            lemma_insert_sorted(out_before, p as int, r@);
        }
        out.insert(p, r);
        proof {
            let t = out_before.insert(p as int, r@);
            assert(row_views(out@) =~= t);
            out_before.insert_ensures(p as int, r@);
            assert(t[p as int] == r@);
            assert(t.remove(p as int) =~= out_before);
            t.to_multiset_ensures();
            assert(t.remove(p as int).to_multiset() =~= t.to_multiset().remove(t[p as int]));
            assert(t.to_multiset().remove(r@) =~= out_before.to_multiset());
            assert(t.contains(r@));
            assert(t.to_multiset().count(r@) > 0);
            assert(t.to_multiset() =~= out_before.to_multiset().insert(r@));
            row_views(rest@).to_multiset_ensures();
            assert(row_views(rest@).push(r@).to_multiset() =~= row_views(rest@).to_multiset().insert(r@));
            assert(rest_before.to_multiset() =~= row_views(rest@).to_multiset().insert(r@));
            assert(row_views(out@).to_multiset().add(row_views(rest@).to_multiset())
                =~= out_before.to_multiset().add(rest_before.to_multiset()));
        }
    }
    assert(row_views(rest@) =~= Seq::<RowView>::empty());
    assert(row_views(out@).to_multiset().add(row_views(rest@).to_multiset()) =~= row_views(
        out@,
    ).to_multiset());
    out
}

// ---------------------------------------------------------------------------
// The command
// ---------------------------------------------------------------------------

/// The rows of the worktrees and their statuses (`None` where the status
/// could not be read), in the order given.
pub open spec fn item_rows(items: Seq<(WorktreeEntry, Option<WorktreeStatus>)>) -> Seq<RowView> {
    items.map_values(
        |it: (WorktreeEntry, Option<WorktreeStatus>)| row_of(file_name_of(it.0.path@), it.0@, it.1),
    )
}

/// The listing of the worktrees in `items`, each with its status (`None` where
/// the status could not be read): one row per worktree, ordered by name.
pub fn run(items: Vec<(WorktreeEntry, Option<WorktreeStatus>)>) -> (out: String)
    ensures
        exists|p: Seq<RowView>|
            sorted_by_name(p) && p.to_multiset() == item_rows(items@).to_multiset() && out@
                == listing(p),
{
    let mut rows: Vec<Row> = Vec::new();
    let mut i: usize = 0;
    while i < items.len()
        invariant
            0 <= i <= items@.len(),
            rows@.len() == i,
            row_views(rows@) == item_rows(items@).take(i as int),
        decreases items@.len() - i,
    {
        let it = &items[i];
        let status = match &it.1 {
            Some(s) => Some(WorktreeStatus { dirty: s.dirty, ahead: s.ahead, behind: s.behind }),
            None => None,
        };
        assert(*it == items@[i as int]);
        assert(status == it.1);
        let r = row_for(&it.0, status);
        let ghost before = rows@;
        rows.push(r);
        assert(rows@ == before.push(r));
        assert(row_views(rows@)[i as int] == r@);
        assert(item_rows(items@)[i as int] == row_of(file_name_of(it.0.path@), it.0@, it.1));
        assert(row_views(rows@) =~= item_rows(items@).take(i + 1));
        i = i + 1;
    }
    assert(item_rows(items@).take(i as int) =~= item_rows(items@));
    let sorted = sort_rows(rows);
    let out = render(&sorted);
    assert(sorted_by_name(row_views(sorted@)));
    out
}

} // verus!
