//! Filesystem path operations on paths held as text.
use vstd::prelude::*;

use crate::text::{opt_str, starts_with};

verus! {

/// The final component of a path, as `std::path::Path::file_name` finds it
/// (`None` for a path that ends in `..`, or that is a root or empty).
pub uninterp spec fn file_name_of(path: Seq<char>) -> Option<Seq<char>>;

/// The path `std::path::Path::join` builds from `base` and `p`.
pub uninterp spec fn joined(base: Seq<char>, p: Seq<char>) -> Seq<char>;

/// On Unix, `Path::is_absolute`: the path starts at the root `/`.
pub open spec fn is_absolute(p: Seq<char>) -> bool {
    p.len() > 0 && p[0] == '/'
}

/// Calls `std::path::Path::file_name` on `path`; the name, a piece of a UTF-8
/// path, converts to a `String` without loss. The result is named, not stated.
#[verifier::external_body]
pub(crate) fn file_name(path: &str) -> (r: Option<String>)
    ensures
        opt_str(r) == file_name_of(path@),
{
    match std::path::Path::new(path).file_name() {
        Some(n) => Some(n.to_string_lossy().into_owned()),
        None => None,
    }
}

/// Calls `std::path::Path::join`. Its documentation states, for Unix paths,
/// that an absolute `p` replaces `base` and that a relative `p` extends it, so
/// the result then begins with `base`; the result is otherwise named, not
/// stated.
#[verifier::external_body]
pub(crate) fn join(base: &str, p: &str) -> (r: String)
    ensures
        r@ == joined(base@, p@),
        is_absolute(p@) ==> r@ == p@,
        !is_absolute(p@) ==> starts_with(r@, base@),
{
    std::path::Path::new(base).join(p).to_string_lossy().into_owned()
}

/// On Unix, `Path::is_absolute`.
pub fn is_absolute_path(p: &str) -> (b: bool)
    ensures
        b == is_absolute(p@),
{
    let c = crate::text::chars_of(p);
    c.len() > 0 && c[0] == '/'
}

} // verus!
