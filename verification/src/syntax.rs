//! The grammar of a single line.
//!
//! An empty line and a line that starts with `#` say nothing. Of any other
//! line, what counts is its content: the part before the first `#`, without
//! the white space around it. Content that starts with `[` is a header and has
//! to end with `]`; the group's name stands between the two. Any other content
//! is one tag, taken whole.

use crate::text::{find, find_char, substring, trim, trim_bounds};
use vstd::prelude::*;

verus! {

/// A line, read.
#[derive(Debug)]
pub(crate) enum Line {
    /// An empty line or a comment.
    Ignored,
    /// A header with the name of a group.
    Header(String),
    /// A tag.
    Tag(String),
    /// A header without its closing bracket.
    Malformed,
}

/// What a `Line` holds.
pub enum LineView {
    Ignored,
    Header(Seq<char>),
    Tag(Seq<char>),
    Malformed,
}

impl View for Line {
    type V = LineView;

    open(crate) spec fn view(&self) -> LineView {
        match self {
            Line::Ignored => LineView::Ignored,
            Line::Header(name) => LineView::Header(name@),
            Line::Tag(tag) => LineView::Tag(tag@),
            Line::Malformed => LineView::Malformed,
        }
    }
}

/// Whether `line` is empty or a comment from its first character on.
pub open spec fn is_ignored(line: Seq<char>) -> bool {
    line.len() == 0 || line[0] == '#'
}

/// The part of `line` before its first `#`.
pub open spec fn before_comment(line: Seq<char>) -> Seq<char> {
    line.take(find(line, '#') as int)
}

/// The content of `line`: what stands before its first `#`, trimmed.
pub open spec fn content(line: Seq<char>) -> Seq<char> {
    trim(before_comment(line))
}

/// What `line` says.
pub open spec fn classify(line: Seq<char>) -> LineView {
    let body = content(line);
    if is_ignored(line) {
        LineView::Ignored
    } else if body.len() == 0 || body[0] != '[' {
        LineView::Tag(body)
    } else if body.len() >= 2 && body.last() == ']' {
        LineView::Header(trim(body.subrange(1, body.len() - 1)))
    } else {
        LineView::Malformed
    }
}

/// Reads the line that `text` holds between `from` and `to`.
pub(crate) fn read_line(text: &[char], from: usize, to: usize) -> (line: Line)
    requires
        from <= to <= text@.len(),
    ensures
        line@ == classify(text@.subrange(from as int, to as int)),
{
    if from == to || text[from] == '#' {
        return Line::Ignored;
    }
    let comment: usize = find_char(text, from, to, '#');
    let body: (usize, usize) = trim_bounds(text, from, comment);
    proof {
        let whole = text@.subrange(from as int, to as int);
        assert(before_comment(whole) =~= text@.subrange(from as int, comment as int));
    }
    if body.0 == body.1 || text[body.0] != '[' {
        Line::Tag(substring(text, body.0, body.1))
    } else if body.1 - body.0 >= 2 && text[body.1 - 1] == ']' {
        let name: (usize, usize) = trim_bounds(text, body.0 + 1, body.1 - 1);
        proof {
            let inner = text@.subrange(body.0 as int, body.1 as int);
            assert(inner.subrange(1, inner.len() - 1) =~= text@.subrange(
                body.0 + 1,
                body.1 - 1,
            ));
        }
        Line::Header(substring(text, name.0, name.1))
    } else {
        Line::Malformed
    }
}

} // verus!
