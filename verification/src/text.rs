//! Text primitives over sequences of characters: the std string operations that
//! the rest of the library relies on, each stated as a spec function and
//! implemented by a verified loop.
use vstd::prelude::*;
use vstd::std_specs::iter::IteratorSpec;

verus! {

// ---------------------------------------------------------------------------
// Character classes
// ---------------------------------------------------------------------------

/// Unicode `White_Space`, the property behind `char::is_whitespace`.
pub open spec fn is_whitespace(c: char) -> bool {
    let u: u32 = c as u32;
    ||| 0x09 <= u <= 0x0d
    ||| u == 0x20
    ||| u == 0x85
    ||| u == 0xa0
    ||| u == 0x1680
    ||| 0x2000 <= u <= 0x200a
    ||| u == 0x2028
    ||| u == 0x2029
    ||| u == 0x202f
    ||| u == 0x205f
    ||| u == 0x3000
}

pub fn is_ws(c: char) -> (b: bool)
    ensures
        b == is_whitespace(c),
{
    let u: u32 = c as u32;
    (0x09 <= u && u <= 0x0d) || u == 0x20 || u == 0x85 || u == 0xa0 || u == 0x1680 || (0x2000
        <= u && u <= 0x200a) || u == 0x2028 || u == 0x2029 || u == 0x202f || u == 0x205f || u
        == 0x3000
}

/// An ASCII decimal digit.
pub open spec fn is_digit(c: char) -> bool {
    48 <= (c as u32) <= 57
}

/// The value of an ASCII digit.
pub open spec fn digit_value(c: char) -> nat {
    ((c as u32) - 48) as nat
}

// ---------------------------------------------------------------------------
// Conversions between `str`/`String` and `Vec<char>`
// ---------------------------------------------------------------------------

/// The characters of `s`, in order.
pub fn chars_of(s: &str) -> (v: Vec<char>)
    ensures
        v@ == s@,
{
    let mut v: Vec<char> = Vec::new();
    for c in it: s.chars()
        invariant
            v@ == it.seq().take(it.index() as int),
    {
        v.push(c);
    }
    v
}

/// Calls `FromIterator<char>` for `String` (std's `collect`): the string made of
/// the characters of `v`, in order.
#[verifier::external_body]
pub(crate) fn string_of(v: &[char]) -> (s: String)
    ensures
        s@ == v@,
{
    v.iter().collect::<String>()
}

/// A copy of `v[lo..hi]`.
pub fn slice_of(v: &[char], lo: usize, hi: usize) -> (r: Vec<char>)
    requires
        lo <= hi <= v@.len(),
    ensures
        r@ == v@.subrange(lo as int, hi as int),
{
    let mut r: Vec<char> = Vec::new();
    let mut i: usize = lo;
    while i < hi
        invariant
            lo <= i <= hi <= v@.len(),
            r@ == v@.subrange(lo as int, i as int),
        decreases hi - i,
    {
        r.push(v[i]);
        i = i + 1;
        assert(r@ =~= v@.subrange(lo as int, i as int));
    }
    r
}

/// Appends the characters of `b` to `a`.
pub fn push_all(a: &mut Vec<char>, b: &[char])
    ensures
        final(a)@ == old(a)@ + b@,
{
    let mut i: usize = 0;
    while i < b.len()
        invariant
            0 <= i <= b@.len(),
            a@ == old(a)@ + b@.subrange(0, i as int),
        decreases b@.len() - i,
    {
        a.push(b[i]);
        i = i + 1;
        assert(a@ =~= old(a)@ + b@.subrange(0, i as int));
    }
    assert(b@.subrange(0, b@.len() as int) =~= b@);
}

/// Whether two character sequences are equal.
pub fn chars_eq(a: &[char], b: &[char]) -> (r: bool)
    ensures
        r == (a@ == b@),
{
    if a.len() != b.len() {
        return false;
    }
    let mut i: usize = 0;
    while i < a.len()
        invariant
            a@.len() == b@.len(),
            0 <= i <= a@.len(),
            forall|j: int| 0 <= j < i ==> a@[j] == b@[j],
        decreases a@.len() - i,
    {
        if a[i] != b[i] {
            return false;
        }
        i = i + 1;
    }
    assert(a@ =~= b@);
    true
}

// ---------------------------------------------------------------------------
// Prefixes
// ---------------------------------------------------------------------------

/// `str::starts_with` for a string pattern.
pub open spec fn starts_with(s: Seq<char>, p: Seq<char>) -> bool {
    p.len() <= s.len() && s.take(p.len() as int) == p
}

/// Whether `p` occurs in `s` at position `i`.
pub fn matches_at(s: &[char], i: usize, p: &[char]) -> (r: bool)
    requires
        i <= s@.len(),
    ensures
        r == starts_with(s@.skip(i as int), p@),
{
    let n: usize = s.len();
    if p.len() > n - i {
        return false;
    }
    let mut j: usize = 0;
    while j < p.len()
        invariant
            n == s@.len(),
            i + p@.len() <= s@.len(),
            0 <= j <= p@.len(),
            forall|k: int| 0 <= k < j ==> s@[i + k] == p@[k],
        decreases p@.len() - j,
    {
        if s[i + j] != p[j] {
            assert(s@.skip(i as int).take(p@.len() as int)[j as int] != p@[j as int]);
            return false;
        }
        j = j + 1;
    }
    assert(s@.skip(i as int).take(p@.len() as int) =~= p@);
    true
}

/// `str::trim_start_matches` for a non-empty string pattern: every leading
/// occurrence of `p` is removed.
pub open spec fn trim_start_matches(s: Seq<char>, p: Seq<char>) -> Seq<char>
    decreases s.len(),
{
    if p.len() > 0 && starts_with(s, p) {
        trim_start_matches(s.skip(p.len() as int), p)
    } else {
        s
    }
}

/// Removes every leading occurrence of `p` from `s`.
pub fn trim_start_matches_of(s: &[char], p: &[char]) -> (r: Vec<char>)
    ensures
        r@ == trim_start_matches(s@, p@),
{
    let mut i: usize = 0;
    assert(s@.skip(0) =~= s@);
    if p.len() > 0 {
        loop
            invariant
                p@.len() > 0,
                0 <= i <= s@.len(),
                trim_start_matches(s@.skip(i as int), p@) == trim_start_matches(s@, p@),
            ensures
                0 <= i <= s@.len(),
                trim_start_matches(s@.skip(i as int), p@) == s@.skip(i as int),
                trim_start_matches(s@.skip(i as int), p@) == trim_start_matches(s@, p@),
            decreases s@.len() - i,
        {
            if !matches_at(s, i, p) {
                break;
            }
            assert(s@.len() == s.len());
            assert(p@.len() <= s@.len() - i);
            assert(s@.skip(i as int).skip(p@.len() as int) =~= s@.skip(i + p@.len()));
            i = i + p.len();
        }
    }
    assert(s@.skip(0) =~= s@);
    let r = slice_of(s, i, s.len());
    assert(r@ =~= s@.skip(i as int));
    r
}

// ---------------------------------------------------------------------------
// First index satisfying a predicate
// ---------------------------------------------------------------------------

/// The index of the first character of `s` that satisfies `p`, or `s.len()`.
pub open spec fn first_index(s: Seq<char>, p: spec_fn(char) -> bool) -> nat
    decreases s.len(),
{
    if s.len() == 0 {
        0
    } else if p(s[0]) {
        0
    } else {
        1 + first_index(s.drop_first(), p)
    }
}

pub proof fn lemma_first_index(s: Seq<char>, p: spec_fn(char) -> bool)
    ensures
        first_index(s, p) <= s.len(),
        forall|j: int| 0 <= j < first_index(s, p) ==> !p(#[trigger] s[j]),
        first_index(s, p) < s.len() ==> p(s[first_index(s, p) as int]),
    decreases s.len(),
{
    if s.len() > 0 && !p(s[0]) {
        lemma_first_index(s.drop_first(), p);
        assert forall|j: int| 0 <= j < first_index(s, p) implies !p(#[trigger] s[j]) by {
            if j > 0 {
                assert(s[j] == s.drop_first()[j - 1]);
            }
        }
    }
}

/// The first index of `s` holding a character that satisfies `p`, or `s.len()`,
/// determined by the three properties that characterise it.
pub proof fn lemma_first_index_unique(s: Seq<char>, p: spec_fn(char) -> bool, k: int)
    requires
        0 <= k <= s.len(),
        forall|j: int| 0 <= j < k ==> !p(#[trigger] s[j]),
        k < s.len() ==> p(s[k]),
    ensures
        first_index(s, p) == k,
{
    lemma_first_index(s, p);
    let f: int = first_index(s, p) as int;
    if f < k {
        assert(!p(s[f]));
    }
    if k < f {
        assert(!p(s[k]));
    }
}

pub open spec fn newline(c: char) -> bool {
    c == '\n'
}

pub open spec fn whitespace(c: char) -> bool {
    is_whitespace(c)
}

// ---------------------------------------------------------------------------
// trim
// ---------------------------------------------------------------------------

/// `str::trim_start`: leading whitespace removed.
pub open spec fn trim_start(s: Seq<char>) -> Seq<char>
    decreases s.len(),
{
    if s.len() > 0 && is_whitespace(s[0]) {
        trim_start(s.drop_first())
    } else {
        s
    }
}

/// `str::trim_end`: trailing whitespace removed.
pub open spec fn trim_end(s: Seq<char>) -> Seq<char>
    decreases s.len(),
{
    if s.len() > 0 && is_whitespace(s.last()) {
        trim_end(s.drop_last())
    } else {
        s
    }
}

/// `str::trim`: leading and trailing whitespace removed.
pub open spec fn trim(s: Seq<char>) -> Seq<char> {
    trim_end(trim_start(s))
}

pub proof fn lemma_trim_start_len(s: Seq<char>)
    ensures
        trim_start(s).len() <= s.len(),
        trim_start(s).len() > 0 ==> !is_whitespace(trim_start(s)[0]),
        trim_start(s) == s.skip(s.len() - trim_start(s).len()),
    decreases s.len(),
{
    if s.len() > 0 && is_whitespace(s[0]) {
        lemma_trim_start_len(s.drop_first());
        assert(s.drop_first().skip(s.drop_first().len() - trim_start(s).len()) =~= s.skip(
            s.len() - trim_start(s).len(),
        ));
    } else {
        assert(s.skip(0) =~= s);
    }
}

/// Text made of whitespace only (the empty text among it).
pub open spec fn all_whitespace(s: Seq<char>) -> bool {
    forall|i: int| 0 <= i < s.len() ==> is_whitespace(#[trigger] s[i])
}

/// Trailing whitespace goes with `trim_end`, whatever comes before it.
pub proof fn lemma_trim_end_whitespace(p: Seq<char>, w: Seq<char>)
    requires
        all_whitespace(w),
    ensures
        trim_end(p + w) == trim_end(p),
    decreases w.len(),
{
    if w.len() == 0 {
        assert(p + w =~= p);
    } else {
        assert((p + w).last() == w.last());
        assert((p + w).drop_last() =~= p + w.drop_last());
        lemma_trim_end_whitespace(p, w.drop_last());
    }
}

/// `trim_end` stops within a tail that holds a character other than
/// whitespace, and leaves a non-empty prefix of it that ends with one.
pub proof fn lemma_trim_end_visible(p: Seq<char>, x: Seq<char>)
    requires
        !all_whitespace(x),
    ensures
        trim_end(p + x) == p + trim_end(x),
        0 < trim_end(x).len() <= x.len(),
        !is_whitespace(trim_end(x).last()),
        trim_end(x) == x.take(trim_end(x).len() as int),
    decreases x.len(),
{
    assert((p + x).last() == x.last());
    if is_whitespace(x.last()) {
        let d = x.drop_last();
        assert(!all_whitespace(d)) by {
            let i = choose|i: int| 0 <= i < x.len() && !is_whitespace(#[trigger] x[i]);
            assert(d[i] == x[i]);
        }
        assert((p + x).drop_last() =~= p + d);
        lemma_trim_end_visible(p, d);
        assert(d.take(trim_end(d).len() as int) =~= x.take(trim_end(d).len() as int));
    } else {
        assert(x.take(x.len() as int) =~= x);
    }
}

proof fn lemma_trim_start_shape(s: Seq<char>)
    ensures
        trim_start(s).len() <= s.len(),
        trim_start(s) == s.skip(s.len() - trim_start(s).len()),
        all_whitespace(s.take(s.len() - trim_start(s).len())),
        trim_start(s).len() > 0 ==> !is_whitespace(trim_start(s)[0]),
    decreases s.len(),
{
    if s.len() > 0 && is_whitespace(s[0]) {
        let t = s.drop_first();
        lemma_trim_start_shape(t);
        let k = s.len() - trim_start(s).len();
        assert(t.skip(t.len() - trim_start(t).len()) =~= s.skip(k));
        assert forall|i: int| 0 <= i < k implies is_whitespace(#[trigger] s.take(k)[i]) by {
            if i > 0 {
                assert(s.take(k)[i] == t.take(k - 1)[i - 1]);
            }
        }
    } else {
        assert(s.skip(0) =~= s);
    }
}

proof fn lemma_trim_end_shape(s: Seq<char>)
    ensures
        trim_end(s).len() <= s.len(),
        trim_end(s) == s.take(trim_end(s).len() as int),
        all_whitespace(s.skip(trim_end(s).len() as int)),
        trim_end(s).len() > 0 ==> !is_whitespace(trim_end(s).last()),
    decreases s.len(),
{
    if s.len() > 0 && is_whitespace(s.last()) {
        let t = s.drop_last();
        lemma_trim_end_shape(t);
        let n = trim_end(s).len() as int;
        assert(t.take(n) =~= s.take(n));
        assert forall|i: int| 0 <= i < s.len() - n implies is_whitespace(#[trigger] s.skip(n)[i]) by {
            if i < t.len() - n {
                assert(s.skip(n)[i] == t.skip(n)[i]);
            }
        }
    } else {
        assert(s.take(s.len() as int) =~= s);
    }
}

/// `trim` takes whitespace, and only whitespace, off both ends: what is left
/// is a piece of `s` that begins and ends with other characters (or nothing),
/// and all of `s` before and after it is whitespace.
pub proof fn lemma_trim_shape(s: Seq<char>)
    ensures
        exists|k: int|
            0 <= k && k + trim(s).len() <= s.len() && #[trigger] s.subrange(k, k + trim(s).len())
                == trim(s) && all_whitespace(s.take(k)) && all_whitespace(
                s.skip(k + trim(s).len()),
            ),
        trim(s).len() > 0 ==> !is_whitespace(trim(s)[0]) && !is_whitespace(trim(s).last()),
{
    lemma_trim_start_shape(s);
    let u = trim_start(s);
    let k = s.len() - u.len();
    lemma_trim_end_shape(u);
    let t = trim(s);
    assert(t == trim_end(u));
    assert(s.subrange(k, k + t.len()) =~= t);
    assert(s.skip(k + t.len()) =~= u.skip(t.len() as int));
    if t.len() > 0 {
        assert(t[0] == u[0]);
    }
}

/// Index of the first non-whitespace character at or after `i`.
fn skip_ws(s: &[char], i: usize) -> (k: usize)
    requires
        i <= s@.len(),
    ensures
        i <= k <= s@.len(),
        trim_start(s@.skip(k as int)) == trim_start(s@.skip(i as int)),
        k < s@.len() ==> !is_whitespace(s@[k as int]),
{
    let mut k: usize = i;
    while k < s.len() && is_ws(s[k])
        invariant
            i <= k <= s@.len(),
            trim_start(s@.skip(k as int)) == trim_start(s@.skip(i as int)),
        decreases s@.len() - k,
    {
        assert(s@.skip(k as int).drop_first() =~= s@.skip(k + 1));
        k = k + 1;
    }
    k
}

/// `str::trim`.
pub fn trim_of(s: &[char]) -> (r: Vec<char>)
    ensures
        r@ == trim(s@),
{
    let i: usize = skip_ws(s, 0);
    proof {
        assert(s@.skip(0) =~= s@);
        if i < s@.len() {
            assert(s@.skip(i as int)[0] == s@[i as int]);
        }
        assert(trim_start(s@) == s@.skip(i as int));
        assert(s@.skip(i as int) =~= s@.subrange(i as int, s@.len() as int));
    }
    let mut j: usize = s.len();
    while j > i && is_ws(s[j - 1])
        invariant
            i <= j <= s@.len(),
            trim_end(s@.subrange(i as int, j as int)) == trim(s@),
        decreases j,
    {
        proof {
            let t = s@.subrange(i as int, j as int);
            assert(t.last() == s@[j - 1]);
            assert(t.drop_last() =~= s@.subrange(i as int, j - 1));
        }
        j = j - 1;
    }
    proof {
        let t = s@.subrange(i as int, j as int);
        if j > i {
            assert(t.last() == s@[j - 1]);
        }
    }
    slice_of(s, i, j)
}

// ---------------------------------------------------------------------------
// lines
// ---------------------------------------------------------------------------

/// A line as `str::lines` yields it: one trailing `'\r'` of a line that ended
/// with `'\n'` is dropped.
pub open spec fn strip_cr(line: Seq<char>) -> Seq<char> {
    if line.len() > 0 && line.last() == '\r' {
        line.drop_last()
    } else {
        line
    }
}

/// `str::lines`: the pieces between `'\n'`s, each without a `"\r"` just before
/// its `'\n'`; a final line ending adds no empty line.
pub open spec fn lines(s: Seq<char>) -> Seq<Seq<char>>
    decreases s.len(),
{
    if s.len() == 0 {
        seq![]
    } else {
        let k: nat = first_index(s, |c: char| newline(c));
        if k >= s.len() {
            seq![s]
        } else {
            seq![strip_cr(s.take(k as int))] + lines(s.skip(k + 1 as int))
        }
    }
}

/// The views of the vectors of `v`.
pub open spec fn views(v: Seq<Vec<char>>) -> Seq<Seq<char>> {
    v.map_values(|x: Vec<char>| x@)
}

/// `str::lines`.
pub fn lines_of(s: &[char]) -> (out: Vec<Vec<char>>)
    ensures
        views(out@) == lines(s@),
{
    let mut out: Vec<Vec<char>> = Vec::new();
    let mut pos: usize = 0;
    assert(s@.skip(0) =~= s@);
    while pos < s.len()
        invariant
            0 <= pos <= s@.len(),
            views(out@) + lines(s@.skip(pos as int)) == lines(s@),
        decreases s@.len() - pos,
    {
        let ghost rest = s@.skip(pos as int);
        let mut k: usize = pos;
        while k < s.len() && s[k] != '\n'
            invariant
                pos <= k <= s@.len(),
                forall|j: int| pos <= j < k ==> s@[j] != '\n',
            decreases s@.len() - k,
        {
            k = k + 1;
        }
        proof {
            assert forall|j: int| 0 <= j < k - pos implies !newline(#[trigger] rest[j]) by {
                assert(rest[j] == s@[pos + j]);
            }
            if k < s@.len() {
                assert(rest[k - pos] == s@[k as int]);
            }
            lemma_first_index_unique(rest, |c: char| newline(c), k - pos);
        }
        let mut line = slice_of(s, pos, k);
        let ghost before = out@;
        if k == s.len() {
            assert(line@ =~= rest);
            out.push(line);
            assert(s@.skip(k as int) =~= Seq::<char>::empty());
            assert(views(out@) =~= views(before) + seq![rest]);
            pos = k;
        } else {
            assert(line@ =~= rest.take(k - pos));
            if k > pos && s[k - 1] == '\r' {
                line.pop();
            }
            assert(line@ =~= strip_cr(rest.take(k - pos)));
            out.push(line);
            assert(rest.skip(k - pos + 1) =~= s@.skip(k + 1));
            assert(views(out@) =~= views(before) + seq![strip_cr(rest.take(k - pos))]);
            pos = k + 1;
        }
    }
    assert(s@.skip(pos as int) =~= Seq::<char>::empty());
    assert(views(out@) + lines(s@.skip(pos as int)) =~= views(out@));
    out
}

// ---------------------------------------------------------------------------
// split_whitespace
// ---------------------------------------------------------------------------

/// `str::split_whitespace`: the maximal runs of non-whitespace characters.
pub open spec fn split_whitespace(s: Seq<char>) -> Seq<Seq<char>>
    decreases s.len(),
{
    let t = trim_start(s);
    if t.len() == 0 {
        seq![]
    } else {
        let k: nat = first_index(t, |c: char| whitespace(c));
        proof {
            lemma_trim_start_len(s);
            lemma_first_index(t, |c: char| whitespace(c));
        }
        if k == 0 {
            seq![]
        } else {
            seq![t.take(k as int)] + split_whitespace(t.skip(k as int))
        }
    }
}

/// `str::split_whitespace`.
pub fn split_whitespace_of(s: &[char]) -> (out: Vec<Vec<char>>)
    ensures
        views(out@) == split_whitespace(s@),
{
    let mut out: Vec<Vec<char>> = Vec::new();
    let mut pos: usize = 0;
    assert(s@.skip(0) =~= s@);
    loop
        invariant
            0 <= pos <= s@.len(),
            views(out@) + split_whitespace(s@.skip(pos as int)) == split_whitespace(s@),
        decreases s@.len() - pos,
    {
        let ghost rest = s@.skip(pos as int);
        let start: usize = skip_ws(s, pos);
        let ghost t = s@.skip(start as int);
        proof {
            lemma_trim_start_len(rest);
            assert(trim_start(t) == trim_start(rest));
            if start < s@.len() {
                assert(t[0] == s@[start as int]);
                assert(trim_start(t) == t);
            } else {
                assert(t.len() == 0);
            }
        }
        if start == s.len() {
            assert(split_whitespace(rest) == Seq::<Seq<char>>::empty());
            assert(views(out@) + split_whitespace(rest) =~= views(out@));
            return out;
        }
        let mut k: usize = start;
        while k < s.len() && !is_ws(s[k])
            invariant
                start <= k <= s@.len(),
                forall|j: int| start <= j < k ==> !is_whitespace(s@[j]),
            decreases s@.len() - k,
        {
            k = k + 1;
        }
        proof {
            assert forall|j: int| 0 <= j < k - start implies !whitespace(#[trigger] t[j]) by {
                assert(t[j] == s@[start + j]);
            }
            if k < s@.len() {
                assert(t[k - start] == s@[k as int]);
            }
            lemma_first_index_unique(t, |c: char| whitespace(c), k - start);
            assert(t.skip(k - start) =~= s@.skip(k as int));
        }
        let word = slice_of(s, start, k);
        assert(word@ =~= t.take(k - start));
        let ghost before = out@;
        out.push(word);
        assert(views(out@) =~= views(before) + seq![t.take(k - start)]);
        pos = k;
    }
}

// ---------------------------------------------------------------------------
// Integers
// ---------------------------------------------------------------------------

/// The value of a sequence of ASCII digits, most significant first.
pub open spec fn digits_value(d: Seq<char>) -> nat
    decreases d.len(),
{
    if d.len() == 0 {
        0
    } else {
        digits_value(d.drop_last()) * 10 + digit_value(d.last())
    }
}

pub open spec fn all_digits(d: Seq<char>) -> bool {
    forall|i: int| 0 <= i < d.len() ==> is_digit(#[trigger] d[i])
}

/// The digits of an unsigned integer: `s` without one leading `'+'`.
pub open spec fn unsigned_digits(s: Seq<char>) -> Seq<char> {
    if s.len() > 0 && s[0] == '+' {
        s.drop_first()
    } else {
        s
    }
}

/// `<u32 as FromStr>::from_str`: an optional `'+'`, then one or more ASCII
/// digits whose value fits in a `u32`.
pub open spec fn parse_u32(s: Seq<char>) -> Option<u32> {
    let d = unsigned_digits(s);
    if d.len() > 0 && all_digits(d) && digits_value(d) <= u32::MAX {
        Some(digits_value(d) as u32)
    } else {
        None
    }
}

pub proof fn lemma_digits_value_monotone(d: Seq<char>, i: int, j: int)
    requires
        0 <= i <= j <= d.len(),
    ensures
        digits_value(d.take(i)) <= digits_value(d.take(j)),
    decreases j - i,
{
    if i < j {
        lemma_digits_value_monotone(d, i, j - 1);
        assert(d.take(j).drop_last() =~= d.take(j - 1));
    }
}

/// `str::parse::<u32>`, with `None` for every error.
pub fn parse_u32_of(s: &[char]) -> (r: Option<u32>)
    ensures
        r == parse_u32(s@),
{
    let start: usize = if s.len() > 0 && s[0] == '+' {
        1
    } else {
        0
    };
    let ghost d = unsigned_digits(s@);
    assert(d =~= s@.skip(start as int));
    if start == s.len() {
        return None;
    }
    let mut acc: u64 = 0;
    let mut i: usize = start;
    while i < s.len()
        invariant
            start <= i <= s@.len(),
            d == unsigned_digits(s@),
            d =~= s@.skip(start as int),
            acc as nat == digits_value(d.take(i - start)),
            acc <= u32::MAX,
            forall|j: int| 0 <= j < i - start ==> is_digit(#[trigger] d[j]),
        decreases s@.len() - i,
    {
        let c = s[i];
        let u: u32 = c as u32;
        if !(48 <= u && u <= 57) {
            assert(d[i - start] == c);
            assert(!is_digit(d[i - start]));
            assert(!all_digits(d));
            assert(parse_u32(s@) is None);
            return None;
        }
        assert(d.take(i - start + 1).drop_last() =~= d.take(i - start));
        assert(d.take(i - start + 1).last() == c);
        acc = acc * 10 + (u - 48) as u64;
        i = i + 1;
        assert(acc as nat == digits_value(d.take(i - start)));
        if acc > 0xffff_ffff {
            proof {
                if all_digits(d) {
                    lemma_digits_value_monotone(d, i - start, d.len() as int);
                    assert(d.take(d.len() as int) =~= d);
                }
            }
            return None;
        }
    }
    assert(d.take(d.len() as int) =~= d);
    Some(acc as u32)
}

/// The digit character for `n < 10`.
pub open spec fn digit_char(n: nat) -> char {
    (n + 48) as char
}

/// The decimal representation of `n`, as `Display` writes it.
pub open spec fn decimal(n: nat) -> Seq<char>
    decreases n,
{
    if n < 10 {
        seq![digit_char(n)]
    } else {
        decimal(n / 10) + seq![digit_char(n % 10)]
    }
}

/// The decimal representation of `n`.
pub fn decimal_of(n: u32) -> (r: Vec<char>)
    ensures
        r@ == decimal(n as nat),
    decreases n,
{
    let d: u8 = (n % 10) as u8;
    let c = (48u8 + d) as char;
    assert(c == digit_char((n % 10) as nat));
    if n < 10 {
        let mut r: Vec<char> = Vec::new();
        r.push(c);
        assert(r@ =~= seq![c]);
        r
    } else {
        let mut r = decimal_of(n / 10);
        r.push(c);
        r
    }
}

/// The decimal representation of `n` is a non-empty run of ASCII digits whose
/// value is `n`.
pub proof fn lemma_decimal_digits(n: nat)
    ensures
        decimal(n).len() > 0,
        all_digits(decimal(n)),
        digits_value(decimal(n)) == n,
        forall|i: int| 0 <= i < decimal(n).len() ==> !is_whitespace(#[trigger] decimal(n)[i]),
    decreases n,
{
    if n < 10 {
        let c = digit_char(n);
        assert((c as u32) == n + 48);
        assert(decimal(n) =~= seq![c]);
        assert(decimal(n).drop_last() =~= Seq::<char>::empty());
        assert(digits_value(decimal(n).drop_last()) == 0);
        assert(digit_value(c) == n);
        assert(digits_value(decimal(n)) == n);
    } else {
        lemma_decimal_digits(n / 10);
        let c = digit_char(n % 10);
        assert((c as u32) == n % 10 + 48);
        let d = decimal(n);
        assert(d.drop_last() =~= decimal(n / 10));
        assert(d.last() == c);
        assert(digit_value(c) == n % 10);
        assert((n / 10) * 10 + n % 10 == n) by (nonlinear_arith);
        assert(digits_value(d) == digits_value(d.drop_last()) * 10 + digit_value(d.last()));
        assert forall|i: int| 0 <= i < d.len() implies is_digit(#[trigger] d[i]) && !is_whitespace(
            d[i],
        ) by {
            if i < d.len() - 1 {
                assert(d[i] == decimal(n / 10)[i]);
            }
        }
    }
}

/// Reading back what `Display` writes: `str::parse::<u32>` of the decimal
/// representation of `n` gives `n`.
pub proof fn lemma_parse_decimal(n: u32)
    ensures
        parse_u32(decimal(n as nat)) == Some(n),
{
    lemma_decimal_digits(n as nat);
    assert(is_digit(decimal(n as nat)[0]));
    assert(unsigned_digits(decimal(n as nat)) == decimal(n as nat));
}

// ---------------------------------------------------------------------------
// replace
// ---------------------------------------------------------------------------

/// `str::replace` for a non-empty pattern: non-overlapping occurrences of `p`,
/// found from left to right, each replaced by `r`.
pub open spec fn replace(s: Seq<char>, p: Seq<char>, r: Seq<char>) -> Seq<char>
    decreases s.len(),
{
    if s.len() == 0 || p.len() == 0 {
        s
    } else if starts_with(s, p) {
        r + replace(s.skip(p.len() as int), p, r)
    } else {
        seq![s[0]] + replace(s.drop_first(), p, r)
    }
}

/// Text in which `p` occurs nowhere is left as it is.
pub proof fn lemma_replace_absent(s: Seq<char>, p: Seq<char>, r: Seq<char>)
    requires
        p.len() > 0,
        forall|i: int| 0 <= i < s.len() ==> !starts_with(#[trigger] s.skip(i), p),
    ensures
        replace(s, p, r) == s,
    decreases s.len(),
{
    if s.len() > 0 {
        assert(s.skip(0) =~= s);
        let t = s.drop_first();
        assert forall|i: int| 0 <= i < t.len() implies !starts_with(#[trigger] t.skip(i), p) by {
            assert(t.skip(i) =~= s.skip(i + 1));
        }
        lemma_replace_absent(t, p, r);
        assert(seq![s[0]] + t =~= s);
    }
}

/// The first occurrence of `p` is replaced by `r`, the text before it is kept,
/// and the rest is replaced in the same way.
pub proof fn lemma_replace_first(a: Seq<char>, p: Seq<char>, b: Seq<char>, r: Seq<char>)
    requires
        p.len() > 0,
        forall|i: int| 0 <= i < a.len() ==> !starts_with(#[trigger] (a + p + b).skip(i), p),
    ensures
        replace(a + p + b, p, r) == a + r + replace(b, p, r),
    decreases a.len(),
{
    let s = a + p + b;
    if a.len() == 0 {
        assert(s =~= p + b);
        assert(s.take(p.len() as int) =~= p);
        assert(s.skip(p.len() as int) =~= b);
        assert(a + r + replace(b, p, r) =~= r + replace(b, p, r));
    } else {
        assert(s.skip(0) =~= s);
        assert(!starts_with(s, p));
        let a2 = a.drop_first();
        assert(s.drop_first() =~= a2 + p + b);
        assert forall|i: int| 0 <= i < a2.len() implies !starts_with(
            #[trigger] (a2 + p + b).skip(i),
            p,
        ) by {
            assert((a2 + p + b).skip(i) =~= s.skip(i + 1));
        }
        lemma_replace_first(a2, p, b, r);
        assert(s[0] == a[0]);
        assert(seq![a[0]] + (a2 + r + replace(b, p, r)) =~= a + r + replace(b, p, r));
    }
}

/// `str::replace` for a non-empty pattern.
pub fn replace_of(s: &[char], p: &[char], r: &[char]) -> (out: Vec<char>)
    requires
        p@.len() > 0,
    ensures
        out@ == replace(s@, p@, r@),
{
    let mut out: Vec<char> = Vec::new();
    let mut i: usize = 0;
    assert(s@.skip(0) =~= s@);
    while i < s.len()
        invariant
            p@.len() > 0,
            0 <= i <= s@.len(),
            out@ + replace(s@.skip(i as int), p@, r@) == replace(s@, p@, r@),
        decreases s@.len() - i,
    {
        let ghost before = out@;
        let ghost rest = s@.skip(i as int);
        if matches_at(s, i, p) {
            push_all(&mut out, r);
            assert(rest.skip(p@.len() as int) =~= s@.skip(i + p@.len()));
            assert(out@ + replace(s@.skip(i + p@.len()), p@, r@) =~= before + replace(
                rest,
                p@,
                r@,
            ));
            i = i + p.len();
        } else {
            out.push(s[i]);
            assert(rest.drop_first() =~= s@.skip(i + 1));
            assert(rest[0] == s@[i as int]);
            assert(out@ + replace(s@.skip(i + 1), p@, r@) =~= before + replace(rest, p@, r@));
            i = i + 1;
        }
    }
    assert(s@.skip(i as int) =~= Seq::<char>::empty());
    assert(out@ + replace(s@.skip(i as int), p@, r@) =~= out@);
    out
}

// ---------------------------------------------------------------------------
// Padding and ordering
// ---------------------------------------------------------------------------

/// `s` left-aligned in a field of `w` characters, as `format!("{:<w$}", s)`
/// writes it: spaces are added until the character count reaches `w`.
pub open spec fn pad_right(s: Seq<char>, w: nat) -> Seq<char> {
    if s.len() >= w {
        s
    } else {
        s + Seq::new((w - s.len()) as nat, |i: int| ' ')
    }
}

/// `s` left-aligned in a field of `w` characters.
pub fn pad_right_of(s: &[char], w: usize) -> (r: Vec<char>)
    ensures
        r@ == pad_right(s@, w as nat),
{
    let mut r = slice_of(s, 0, s.len());
    assert(s@.subrange(0, s@.len() as int) =~= s@);
    while r.len() < w
        invariant
            s@.len() <= r@.len() || r@ == s@,
            r@.len() <= w || r@ == s@,
            r@ =~= s@ + Seq::new((r@.len() - s@.len()) as nat, |i: int| ' '),
        decreases w - r@.len(),
    {
        r.push(' ');
        assert(r@ =~= s@ + Seq::new((r@.len() - s@.len()) as nat, |i: int| ' '));
    }
    r
}

/// Lexicographic order on character sequences by code point: the order of
/// `str`'s `Ord`, which compares the UTF-8 bytes.
pub open spec fn lex_lt(a: Seq<char>, b: Seq<char>) -> bool
    decreases a.len(),
{
    if a.len() == 0 {
        b.len() > 0
    } else if b.len() == 0 {
        false
    } else if a[0] != b[0] {
        (a[0] as u32) < (b[0] as u32)
    } else {
        lex_lt(a.drop_first(), b.drop_first())
    }
}

pub proof fn lemma_lex_lt_asymmetric(a: Seq<char>, b: Seq<char>)
    ensures
        !(lex_lt(a, b) && lex_lt(b, a)),
    decreases a.len(),
{
    if a.len() > 0 && b.len() > 0 && a[0] == b[0] {
        lemma_lex_lt_asymmetric(a.drop_first(), b.drop_first());
    }
}

pub proof fn lemma_lex_lt_transitive(a: Seq<char>, b: Seq<char>, c: Seq<char>)
    requires
        lex_lt(a, b),
        lex_lt(b, c),
    ensures
        lex_lt(a, c),
    decreases a.len(),
{
    if a.len() > 0 && b.len() > 0 && c.len() > 0 && a[0] == b[0] && b[0] == c[0] {
        lemma_lex_lt_transitive(a.drop_first(), b.drop_first(), c.drop_first());
    }
}

/// Two texts that agree up to a position `i` where they differ are ordered by
/// their characters there, the smaller code point first.
pub proof fn lemma_lex_lt_first_difference(a: Seq<char>, b: Seq<char>, i: int)
    requires
        0 <= i < a.len(),
        i < b.len(),
        a.take(i) == b.take(i),
        a[i] != b[i],
    ensures
        lex_lt(a, b) == ((a[i] as u32) < (b[i] as u32)),
    decreases i,
{
    if i > 0 {
        assert(a[0] == a.take(i)[0]);
        assert(b[0] == b.take(i)[0]);
        assert(a.drop_first().take(i - 1) =~= a.take(i).drop_first());
        assert(b.drop_first().take(i - 1) =~= b.take(i).drop_first());
        lemma_lex_lt_first_difference(a.drop_first(), b.drop_first(), i - 1);
    }
}

/// A text comes before every longer text it begins, and not before any text
/// that begins with it (itself included).
pub proof fn lemma_lex_lt_prefix(a: Seq<char>, b: Seq<char>)
    requires
        a.len() <= b.len(),
        b.take(a.len() as int) == a,
    ensures
        lex_lt(a, b) == (a.len() < b.len()),
        !lex_lt(b, a),
    decreases a.len(),
{
    if a.len() > 0 {
        assert(a[0] == b.take(a.len() as int)[0]);
        assert(b.drop_first().take(a.len() - 1) =~= a.drop_first());
        lemma_lex_lt_prefix(a.drop_first(), b.drop_first());
    }
}

/// Whether `a` comes strictly before `b` in lexicographic order.
pub fn lex_lt_of(a: &[char], b: &[char]) -> (r: bool)
    ensures
        r == lex_lt(a@, b@),
{
    let mut i: usize = 0;
    assert(a@.skip(0) =~= a@);
    assert(b@.skip(0) =~= b@);
    while i < a.len() && i < b.len() && a[i] == b[i]
        invariant
            0 <= i <= a@.len(),
            i <= b@.len(),
            lex_lt(a@.skip(i as int), b@.skip(i as int)) == lex_lt(a@, b@),
        decreases a@.len() - i,
    {
        assert(a@.skip(i as int).drop_first() =~= a@.skip(i + 1));
        assert(b@.skip(i as int).drop_first() =~= b@.skip(i + 1));
        i = i + 1;
    }
    if i == a.len() {
        i < b.len()
    } else if i == b.len() {
        false
    } else {
        assert(a@.skip(i as int)[0] == a@[i as int]);
        assert(b@.skip(i as int)[0] == b@[i as int]);
        (a[i] as u32) < (b[i] as u32)
    }
}

// ---------------------------------------------------------------------------
// Strings
// ---------------------------------------------------------------------------

/// The character sequences of a sequence of strings.
pub open spec fn strs(v: Seq<String>) -> Seq<Seq<char>> {
    v.map_values(|x: String| x@)
}

/// The character sequence of an optional string.
pub open spec fn opt_str(o: Option<String>) -> Option<Seq<char>> {
    match o {
        Some(x) => Some(x@),
        None => None,
    }
}

/// `parts` joined with `sep` between consecutive parts (`[T]::join`).
pub open spec fn join(parts: Seq<Seq<char>>, sep: Seq<char>) -> Seq<char>
    decreases parts.len(),
{
    if parts.len() == 0 {
        seq![]
    } else if parts.len() == 1 {
        parts[0]
    } else {
        join(parts.drop_last(), sep) + sep + parts.last()
    }
}

/// `parts.join(sep)`.
pub fn join_of(parts: &Vec<String>, sep: &str) -> (r: String)
    ensures
        r@ == join(strs(parts@), sep@),
{
    let mut r = String::new();
    let mut i: usize = 0;
    while i < parts.len()
        invariant
            0 <= i <= parts@.len(),
            r@ == join(strs(parts@).take(i as int), sep@),
        decreases parts@.len() - i,
    {
        let ghost before = r@;
        if i > 0 {
            r.append(sep);
        }
        r.append(parts[i].as_str());
        proof {
            let t = strs(parts@).take(i + 1);
            assert(t.drop_last() =~= strs(parts@).take(i as int));
            if i == 0 {
                assert(t.len() == 1);
                assert(r@ =~= t[0]);
            }
        }
        i = i + 1;
    }
    assert(strs(parts@).take(parts@.len() as int) =~= strs(parts@));
    r
}

/// A `String` holding the text of `s`.
pub fn owned(s: &str) -> (r: String)
    ensures
        r@ == s@,
{
    String::from_str(s)
}

/// The character sequence of an optional string slice.
pub open spec fn opt_text(o: Option<&str>) -> Option<Seq<char>> {
    match o {
        Some(x) => Some(x@),
        None => None,
    }
}

} // verus!
