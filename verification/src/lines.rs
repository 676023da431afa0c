//! Splitting a text into its lines.
//!
//! A line ends at a line feed, at a carriage return, or at a carriage return
//! with a line feed directly behind it, which end one line together. The last
//! line needs no end, and a text that stops at the end of a line has no empty
//! line after it.

use crate::text::{find, lemma_find};
use vstd::prelude::*;

verus! {

/// The number of characters of `text` before its first line feed or carriage
/// return, or its length where it has neither.
pub open spec fn first_line_len(text: Seq<char>) -> nat {
    if find(text, '\n') <= find(text, '\r') {
        find(text, '\n')
    } else {
        find(text, '\r')
    }
}

/// The first line of `text`, without its end.
pub open spec fn first_line(text: Seq<char>) -> Seq<char> {
    text.take(first_line_len(text) as int)
}

/// The number of characters that the first line of `text` takes up, its end
/// included.
pub open spec fn first_line_extent(text: Seq<char>) -> nat {
    let n = first_line_len(text) as int;
    if n >= text.len() {
        text.len()
    } else if text[n] == '\r' && n + 1 < text.len() && text[n + 1] == '\n' {
        (n + 2) as nat
    } else {
        (n + 1) as nat
    }
}

/// The lines of `text`, in order and without their ends.
pub open spec fn split_lines(text: Seq<char>) -> Seq<Seq<char>>
    decreases text.len(),
{
    if text.len() == 0 {
        Seq::empty()
    } else {
        seq![first_line(text)] + split_lines(text.skip(first_line_extent(text) as int))
    }
}

/// The first line of `text` ends within `text`, holds neither a line feed nor
/// a carriage return, and has one of the two behind it unless `text` ends
/// there.
pub proof fn lemma_first_line_len(text: Seq<char>)
    ensures
        first_line_len(text) <= text.len(),
        forall|i: int| 0 <= i < first_line_len(text) ==> text[i] != '\n' && text[i] != '\r',
        first_line_len(text) < text.len() ==> text[first_line_len(text) as int] == '\n'
            || text[first_line_len(text) as int] == '\r',
{
    lemma_find(text, '\n');
    lemma_find(text, '\r');
}

/// The only length with the properties that `lemma_first_line_len` states is
/// `first_line_len(text)`.
pub proof fn lemma_first_line_len_unique(text: Seq<char>, n: int)
    requires
        0 <= n <= text.len(),
        forall|i: int| 0 <= i < n ==> text[i] != '\n' && text[i] != '\r',
        n < text.len() ==> text[n] == '\n' || text[n] == '\r',
    ensures
        first_line_len(text) == n,
{
    lemma_first_line_len(text);
}

/// Finds the line of `text` that starts at `from`: the first index of the
/// result is where the line's characters end, the second where the next line
/// starts (the length of `text` after the last line).
pub(crate) fn next_line(text: &[char], from: usize) -> (bounds: (usize, usize))
    requires
        from < text@.len(),
    ensures
        from <= bounds.0 <= bounds.1 <= text@.len(),
        from < bounds.1,
        bounds.0 == from + first_line_len(text@.skip(from as int)),
        bounds.1 == from + first_line_extent(text@.skip(from as int)),
        text@.subrange(from as int, bounds.0 as int) == first_line(text@.skip(from as int)),
{
    let len: usize = text.len();
    let mut end: usize = from;
    while end < len && text[end] != '\n' && text[end] != '\r'
        invariant
            from <= end <= len,
            len == text@.len(),
            forall|j: int| from <= j < end ==> text@[j] != '\n' && text@[j] != '\r',
        decreases len - end,
    {
        end += 1;
    }
    proof {
        let rest = text@.skip(from as int);
        lemma_first_line_len_unique(rest, end - from);
        assert(rest.take(end - from) =~= text@.subrange(from as int, end as int));
    }
    if end == len {
        (end, len)
    } else if text[end] == '\r' && end + 1 < len && text[end + 1] == '\n' {
        (end, end + 2)
    } else {
        (end, end + 1)
    }
}

} // verus!
