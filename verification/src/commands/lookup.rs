//! Finding a worktree by name: the last component of its path.
use vstd::prelude::*;

use crate::git::WorktreeEntry;
use crate::paths::{file_name, file_name_of};
use crate::text::{chars_eq, chars_of, opt_str};

verus! {

/// Whether a worktree whose path ends in the component `n` answers to `name`.
/// A path without a final component answers to the empty name only where
/// `unnamed_is_empty` holds.
pub open spec fn answers_to(n: Option<Seq<char>>, name: Seq<char>, unnamed_is_empty: bool) -> bool {
    match n {
        Some(x) => x == name,
        None => unnamed_is_empty && name.len() == 0,
    }
}

/// A name answers only to itself, character for character: a name that merely
/// begins or ends with the one asked for does not answer. A path without a
/// final component answers to nothing but, where `unnamed_is_empty` holds,
/// the empty name.
pub proof fn lemma_answers_exactly(n: Option<Seq<char>>, name: Seq<char>, unnamed_is_empty: bool)
    ensures
        n matches Some(x) ==> (answers_to(n, name, unnamed_is_empty) <==> x == name),
        n is None ==> (answers_to(n, name, unnamed_is_empty) <==> (unnamed_is_empty
            && name.len() == 0)),
{
}

/// The final components of the entries' paths.
pub open spec fn names_of(entries: Seq<WorktreeEntry>) -> Seq<Option<Seq<char>>> {
    entries.map_values(|e: WorktreeEntry| file_name_of(e.path@))
}

/// The views of optional strings.
pub open spec fn opt_views(v: Seq<Option<String>>) -> Seq<Option<Seq<char>>> {
    v.map_values(|o: Option<String>| opt_str(o))
}

/// The position of the first name that answers to `name`.
pub open spec fn first_answering(
    names: Seq<Option<Seq<char>>>,
    name: Seq<char>,
    unnamed_is_empty: bool,
) -> Option<nat>
    decreases names.len(),
{
    if names.len() == 0 {
        None
    } else if answers_to(names[0], name, unnamed_is_empty) {
        Some(0)
    } else {
        match first_answering(names.drop_first(), name, unnamed_is_empty) {
            Some(k) => Some(k + 1),
            None => None,
        }
    }
}

pub proof fn lemma_first_answering(
    names: Seq<Option<Seq<char>>>,
    name: Seq<char>,
    unnamed_is_empty: bool,
)
    ensures
        match first_answering(names, name, unnamed_is_empty) {
            Some(k) => k < names.len() && answers_to(names[k as int], name, unnamed_is_empty)
                && forall|j: int|
                0 <= j < k ==> !answers_to(#[trigger] names[j], name, unnamed_is_empty),
            None => forall|j: int|
                0 <= j < names.len() ==> !answers_to(#[trigger] names[j], name, unnamed_is_empty),
        },
    decreases names.len(),
{
    if names.len() > 0 {
        let rest = names.drop_first();
        lemma_first_answering(rest, name, unnamed_is_empty);
        if !answers_to(names[0], name, unnamed_is_empty) {
            match first_answering(rest, name, unnamed_is_empty) {
                Some(k) => {
                    assert forall|j: int| 0 <= j < k + 1 as int implies !answers_to(
                        #[trigger] names[j],
                        name,
                        unnamed_is_empty,
                    ) by {
                        if j > 0 {
                            assert(names[j] == rest[j - 1]);
                        }
                    }
                    assert(names[k + 1 as int] == rest[k as int]);
                },
                None => {
                    assert forall|j: int| 0 <= j < names.len() implies !answers_to(
                        #[trigger] names[j],
                        name,
                        unnamed_is_empty,
                    ) by {
                        if j > 0 {
                            assert(names[j] == rest[j - 1]);
                        }
                    }
                },
            }
        }
    }
}

/// `path` and `rm`/`setup` find the same worktree for any non-empty name:
/// they differ only in how a path without a final component answers to the
/// empty name.
pub proof fn lemma_lookups_agree(names: Seq<Option<Seq<char>>>, name: Seq<char>)
    requires
        name.len() > 0,
    ensures
        first_answering(names, name, true) == first_answering(names, name, false),
    decreases names.len(),
{
    if names.len() > 0 {
        lemma_lookups_agree(names.drop_first(), name);
    }
}

/// The final components of the entries' paths (`Path::file_name`).
pub fn entry_names(entries: &Vec<WorktreeEntry>) -> (names: Vec<Option<String>>)
    ensures
        opt_views(names@) == names_of(entries@),
{
    let mut names: Vec<Option<String>> = Vec::new();
    let mut i: usize = 0;
    assert(opt_views(names@) =~= names_of(entries@).take(0));
    while i < entries.len()
        invariant
            0 <= i <= entries@.len(),
            names@.len() == i,
            opt_views(names@) == names_of(entries@).take(i as int),
        decreases entries@.len() - i,
    {
        let e = &entries[i];
        let n = file_name(e.path.as_str());
        let ghost before = names@;
        names.push(n);
        assert(names@ == before.push(n));
        assert(opt_views(names@)[i as int] == opt_str(n));
        assert(names_of(entries@)[i as int] == file_name_of(e.path@));
        assert(opt_views(names@) =~= names_of(entries@).take(i + 1));
        i = i + 1;
    }
    assert(names_of(entries@).take(i as int) =~= names_of(entries@));
    names
}

/// The position of the first of `names` that answers to `name`.
pub fn find(names: &Vec<Option<String>>, name: &str, unnamed_is_empty: bool) -> (r: Option<usize>)
    ensures
        match first_answering(opt_views(names@), name@, unnamed_is_empty) {
            Some(k) => r == Some(k as usize),
            None => r is None,
        },
        r matches Some(k) ==> k < names@.len() && (opt_views(names@)[k as int] == Some(name@) || (
        opt_views(names@)[k as int] is None && unnamed_is_empty && name@.len() == 0)),
        r matches Some(k) ==> forall|j: int|
            0 <= j < k ==> #[trigger] opt_views(names@)[j] != Some(name@) && !(opt_views(
                names@,
            )[j] is None && unnamed_is_empty && name@.len() == 0),
        r is None ==> forall|j: int|
            0 <= j < names@.len() ==> #[trigger] opt_views(names@)[j] != Some(name@) && !(
            opt_views(names@)[j] is None && unnamed_is_empty && name@.len() == 0),
{
    let wanted = chars_of(name);
    let ghost nv = opt_views(names@);
    proof {
        lemma_first_answering(nv, name@, unnamed_is_empty);
    }
    let mut i: usize = 0;
    while i < names.len()
        invariant
            0 <= i <= names@.len(),
            nv == opt_views(names@),
            wanted@ == name@,
            forall|j: int| 0 <= j < i ==> !answers_to(#[trigger] nv[j], name@, unnamed_is_empty),
        decreases names@.len() - i,
    {
        let entry = &names[i];
        assert(*entry == names@[i as int]);
        assert(nv[i as int] == opt_str(*entry));
        let hit = match entry {
            Some(n) => chars_eq(&chars_of(n.as_str()), &wanted),
            None => unnamed_is_empty && wanted.len() == 0,
        };
        assert(hit == answers_to(nv[i as int], name@, unnamed_is_empty));
        if hit {
            proof {
                lemma_first_answering(nv, name@, unnamed_is_empty);
                match first_answering(nv, name@, unnamed_is_empty) {
                    Some(k) => {
                        if k < i {
                            assert(!answers_to(nv[k as int], name@, unnamed_is_empty));
                        }
                        if i < k {
                            assert(!answers_to(nv[i as int], name@, unnamed_is_empty));
                        }
                    },
                    None => {
                        assert(!answers_to(nv[i as int], name@, unnamed_is_empty));
                    },
                }
            }
            return Some(i);
        }
        i = i + 1;
    }
    proof {
        lemma_first_answering(nv, name@, unnamed_is_empty);
        match first_answering(nv, name@, unnamed_is_empty) {
            Some(k) => {
                assert(!answers_to(nv[k as int], name@, unnamed_is_empty));
            },
            None => {},
        }
    }
    None
}

} // verus!
