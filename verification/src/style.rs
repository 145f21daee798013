//! Terminal colours and styles, as `owo_colors` writes them: an SGR escape
//! sequence before the text and its reset after.
use owo_colors::OwoColorize;
use vstd::prelude::*;

use crate::text::{first_index, lemma_first_index_unique};

verus! {

/// The escape sequence `ESC [ <code> m`.
pub open spec fn sgr(code: Seq<char>) -> Seq<char> {
    seq!['\x1b', '['] + code + seq!['m']
}

/// `s` in the foreground colour `code`, followed by the default foreground.
pub open spec fn fg(code: Seq<char>, s: Seq<char>) -> Seq<char> {
    sgr(code) + s + sgr(seq!['3', '9'])
}

pub open spec fn red(s: Seq<char>) -> Seq<char> {
    fg(seq!['3', '1'], s)
}

pub open spec fn green(s: Seq<char>) -> Seq<char> {
    fg(seq!['3', '2'], s)
}

pub open spec fn yellow(s: Seq<char>) -> Seq<char> {
    fg(seq!['3', '3'], s)
}

pub open spec fn cyan(s: Seq<char>) -> Seq<char> {
    fg(seq!['3', '6'], s)
}

/// `s` in bold, followed by a full reset.
pub open spec fn bold(s: Seq<char>) -> Seq<char> {
    sgr(seq!['1']) + s + sgr(seq!['0'])
}

/// `s` dimmed, followed by a full reset.
pub open spec fn dimmed(s: Seq<char>) -> Seq<char> {
    sgr(seq!['2']) + s + sgr(seq!['0'])
}

/// The index in `s` of the first `'m'`, or `s.len()`.
pub open spec fn first_m(s: Seq<char>) -> nat {
    first_index(s, |c: char| c == 'm')
}

/// `s` as a terminal shows its text: every SGR escape sequence (`ESC [`, then
/// anything up to and including the next `m`) taken out.
pub open spec fn strip_sgr(s: Seq<char>) -> Seq<char>
    decreases s.len(),
{
    if s.len() == 0 {
        seq![]
    } else if s.len() >= 2 && s[0] == '\x1b' && s[1] == '[' && first_m(s.skip(2)) < s.len() - 2 {
        strip_sgr(s.skip(first_m(s.skip(2)) + 3int))
    } else {
        seq![s[0]] + strip_sgr(s.drop_first())
    }
}

/// Text without an escape character.
pub open spec fn no_escape(t: Seq<char>) -> bool {
    forall|i: int| 0 <= i < t.len() ==> t[i] != '\x1b'
}

/// Text without an escape character is kept as it is.
pub proof fn lemma_strip_plain(t: Seq<char>, rest: Seq<char>)
    requires
        no_escape(t),
    ensures
        strip_sgr(t + rest) == t + strip_sgr(rest),
    decreases t.len(),
{
    if t.len() == 0 {
        assert(t + rest =~= rest);
    } else {
        let s = t + rest;
        assert(s[0] == t[0]);
        assert(s.drop_first() =~= t.drop_first() + rest);
        lemma_strip_plain(t.drop_first(), rest);
        assert(seq![t[0]] + (t.drop_first() + strip_sgr(rest)) =~= t + strip_sgr(rest));
    }
}

/// An escape sequence whose parameters hold no `m` is taken out.
pub proof fn lemma_strip_sgr(code: Seq<char>, rest: Seq<char>)
    requires
        forall|i: int| 0 <= i < code.len() ==> code[i] != 'm',
    ensures
        strip_sgr(sgr(code) + rest) == strip_sgr(rest),
{
    let s = sgr(code) + rest;
    let tail = s.skip(2);
    assert(tail =~= code + seq!['m'] + rest);
    assert forall|j: int| 0 <= j < code.len() implies !((|c: char| c == 'm')(
        #[trigger] tail[j],
    )) by {
        assert(tail[j] == code[j]);
    }
    assert(tail[code.len() as int] == 'm');
    lemma_first_index_unique(tail, |c: char| c == 'm', code.len() as int);
    assert(s.skip(code.len() + 3int) =~= rest);
}

/// A coloured piece of text shows as the text itself.
pub proof fn lemma_strip_fg(code: Seq<char>, t: Seq<char>, rest: Seq<char>)
    requires
        forall|i: int| 0 <= i < code.len() ==> code[i] != 'm',
        no_escape(t),
    ensures
        strip_sgr(fg(code, t) + rest) == t + strip_sgr(rest),
{
    let end = seq!['3', '9'];
    assert(fg(code, t) + rest =~= sgr(code) + (t + (sgr(end) + rest)));
    lemma_strip_sgr(code, t + (sgr(end) + rest));
    lemma_strip_plain(t, sgr(end) + rest);
    lemma_strip_sgr(end, rest);
}

/// Calls `OwoColorize::red` and renders the result: `ESC[31m`, the text, `ESC[39m`.
#[verifier::external_body]
pub(crate) fn paint_red(s: &str) -> (r: String)
    ensures
        r@ == red(s@),
{
    s.red().to_string()
}

/// Calls `OwoColorize::green` and renders the result: `ESC[32m`, the text, `ESC[39m`.
#[verifier::external_body]
pub(crate) fn paint_green(s: &str) -> (r: String)
    ensures
        r@ == green(s@),
{
    s.green().to_string()
}

/// Calls `OwoColorize::yellow` and renders the result: `ESC[33m`, the text, `ESC[39m`.
#[verifier::external_body]
pub(crate) fn paint_yellow(s: &str) -> (r: String)
    ensures
        r@ == yellow(s@),
{
    s.yellow().to_string()
}

/// Calls `OwoColorize::cyan` and renders the result: `ESC[36m`, the text, `ESC[39m`.
#[verifier::external_body]
pub(crate) fn paint_cyan(s: &str) -> (r: String)
    ensures
        r@ == cyan(s@),
{
    s.cyan().to_string()
}

/// Calls `OwoColorize::bold` and renders the result: `ESC[1m`, the text, `ESC[0m`.
#[verifier::external_body]
pub(crate) fn paint_bold(s: &str) -> (r: String)
    ensures
        r@ == bold(s@),
{
    s.bold().to_string()
}

/// Calls `OwoColorize::dimmed` and renders the result: `ESC[2m`, the text, `ESC[0m`.
#[verifier::external_body]
pub(crate) fn paint_dimmed(s: &str) -> (r: String)
    ensures
        r@ == dimmed(s@),
{
    s.dimmed().to_string()
}

} // verus!
