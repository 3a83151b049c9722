//! The model of text that the search is stated over: strings as sequences of
//! characters, their lines, and substring containment. The three operations
//! that the standard library performs on strings are declared here with the
//! contracts that the rest of the crate relies on.

use vstd::prelude::*;

verus! {

/// `needle` stands in `hay` at character offset `at`.
pub open spec fn occurs_at(needle: Seq<char>, hay: Seq<char>, at: int) -> bool {
    &&& 0 <= at
    &&& at + needle.len() <= hay.len()
    &&& hay.subrange(at, at + needle.len()) == needle
}

/// `needle` is a contiguous part of `hay`. The empty sequence is a part of
/// every sequence.
pub open spec fn occurs_in(needle: Seq<char>, hay: Seq<char>) -> bool {
    exists|at: int| occurs_at(needle, hay, at)
}

/// The offset of the first line feed in `s`, or `s.len()` where `s` has none.
pub open spec fn first_line_feed(s: Seq<char>) -> int
    decreases s.len(),
{
    if s.len() == 0 || s[0] == '\n' {
        0
    } else {
        1 + first_line_feed(s.drop_first())
    }
}

/// `line` without one carriage return at its end, if it has one there.
pub open spec fn without_carriage_return(line: Seq<char>) -> Seq<char> {
    if line.len() > 0 && line.last() == '\r' {
        line.drop_last()
    } else {
        line
    }
}

/// The lines of `s`.
///
/// A line ends at a line feed, or at a carriage return directly followed by a
/// line feed; the line ending is not part of the line. What follows the last
/// line feed is a line of its own unless it is empty, so a line ending at the
/// very end of `s` adds no empty line, and the empty text has no lines. A
/// carriage return that no line feed follows belongs to its line.
pub open spec fn split_lines(s: Seq<char>) -> Seq<Seq<char>>
    decreases s.len(),
{
    let n = first_line_feed(s);
    if s.len() == 0 {
        Seq::empty()
    } else if n < 0 || n >= s.len() {
        seq![s]
    } else {
        seq![without_carriage_return(s.take(n))] + split_lines(s.skip(n + 1))
    }
}

/// The lowercase form of a text, as the standard library's
/// `str::to_lowercase` computes it: a function of the text alone, fixed by the
/// Unicode character database and not written out here.
pub uninterp spec fn lowercase(s: Seq<char>) -> Seq<char>;

/// The lines of `content`, in order.
///
/// Trusted: calls `str::lines` and collects what it yields. The contract
/// restates the documentation of `str::lines` over [`split_lines`].
#[verifier::external_body]
pub(crate) fn lines_of<'a>(content: &'a str) -> (lines: Vec<&'a str>)
    ensures
        lines.deep_view() == split_lines(content@),
{
    content.lines().collect()
}

/// Whether `pattern` is a substring of `line`.
///
/// Trusted: calls `str::contains` with a string pattern, which the
/// documentation defines as a match of the pattern against a sub-slice; on
/// valid UTF-8 that is containment of the character sequence.
#[verifier::external_body]
pub(crate) fn has_substring(line: &str, pattern: &str) -> (found: bool)
    ensures
        found == occurs_in(pattern@, line@),
{
    line.contains(pattern)
}

/// The lowercase form of `s`.
///
/// Trusted: calls `str::to_lowercase`. The result is named by [`lowercase`];
/// the one thing stated of it beyond the name is that the empty text stays
/// empty.
#[verifier::external_body]
pub(crate) fn to_lower(s: &str) -> (lower: String)
    ensures
        lower@ == lowercase(s@),
        s@.len() == 0 ==> lower@.len() == 0,
{
    s.to_lowercase()
}

} // verus!
