//! From lines to groups.
//!
//! The lines are read in order with one group in the making. A header starts
//! a new group; the one in the making is finished first if it has a name, and
//! dropped if it has none. A tag joins the group in the making if that has a
//! name, and is dropped if it has none. When the lines run out, the group in
//! the making is finished whatever it holds.

use crate::error::ParseError;
use crate::group::{Group, GroupView};
use crate::lines::{next_line, split_lines};
use crate::syntax::{classify, read_line, Line, LineView};
use crate::text::to_chars;
use vstd::prelude::*;

verus! {

/// The state between two lines: the groups that are finished, and the one in
/// the making.
pub struct Scan {
    pub finished: Seq<GroupView>,
    pub current: GroupView,
}

/// The state before the first line: nothing finished, and a group in the
/// making with no name and no tags.
pub open spec fn start() -> Scan {
    Scan {
        finished: Seq::empty(),
        current: GroupView { name: Seq::empty(), tags: Seq::empty() },
    }
}

/// The state after `line`, read in `state`.
pub open spec fn feed(state: Scan, line: LineView) -> Scan {
    match line {
        LineView::Header(name) => Scan {
            finished: if state.current.name.len() > 0 {
                state.finished.push(state.current)
            } else {
                state.finished
            },
            current: GroupView { name: name, tags: Seq::empty() },
        },
        LineView::Tag(tag) => if state.current.name.len() > 0 {
            Scan {
                finished: state.finished,
                current: GroupView {
                    name: state.current.name,
                    tags: state.current.tags.push(tag),
                },
            }
        } else {
            state
        },
        LineView::Ignored | LineView::Malformed => state,
    }
}

/// The state after `lines`, read in order from `state` on.
pub open spec fn scan_from(state: Scan, lines: Seq<Seq<char>>) -> Scan
    decreases lines.len(),
{
    if lines.len() == 0 {
        state
    } else {
        feed(scan_from(state, lines.drop_last()), classify(lines.last()))
    }
}

/// The state after all of `lines`, read from the start.
pub open spec fn scan(lines: Seq<Seq<char>>) -> Scan {
    scan_from(start(), lines)
}

/// Whether every header among `lines` is closed.
pub open spec fn well_formed(lines: Seq<Seq<char>>) -> bool {
    forall|i: int| 0 <= i < lines.len() ==> !(classify(#[trigger] lines[i]) is Malformed)
}

/// The groups that `lines` give, or the error that they hold.
pub open spec fn parse_lines(lines: Seq<Seq<char>>) -> Result<Seq<GroupView>, ParseError> {
    if well_formed(lines) {
        Ok(scan(lines).finished.push(scan(lines).current))
    } else {
        Err(ParseError::MalformedHeader)
    }
}

/// The groups that `text` gives, or the error that it holds.
pub open spec fn parse_text(text: Seq<char>) -> Result<Seq<GroupView>, ParseError> {
    parse_lines(split_lines(text))
}

/// Parses `text` into its groups. Fails where a header is not closed, and
/// only there.
pub fn parse_groups(text: &str) -> (result: Result<Vec<Group>, ParseError>)
    ensures
        match parse_text(text@) {
            Ok(groups) => result is Ok && result->Ok_0.deep_view() == groups,
            Err(e) => result == Err::<Vec<Group>, ParseError>(e),
        },
{
    let chars = to_chars(text);
    let len: usize = chars.len();
    let mut finished: Vec<Group> = Vec::new();
    let mut current = Group { name: String::new(), tags: Vec::new() };
    let mut pos: usize = 0;
    let ghost mut seen: Seq<Seq<char>> = Seq::empty();
    proof {
        assert(text@.skip(0) =~= text@);
        assert(seen + split_lines(text@) =~= split_lines(text@));
        assert(finished.deep_view() =~= Seq::empty());
        assert(current.tags.deep_view() =~= Seq::empty());
    }
    while pos < len
        invariant
            chars@ == text@,
            len == chars@.len(),
            pos <= len,
            split_lines(text@) == seen + split_lines(text@.skip(pos as int)),
            well_formed(seen),
            scan(seen) == (Scan { finished: finished.deep_view(), current: current.deep_view() }),
        decreases len - pos,
    {
        let bounds: (usize, usize) = next_line(chars.as_slice(), pos);
        let line = read_line(chars.as_slice(), pos, bounds.0);
        let ghost raw = text@.subrange(pos as int, bounds.0 as int);
        let ghost rest = split_lines(text@.skip(bounds.1 as int));
        proof {
            assert(text@.skip(pos as int).skip(bounds.1 - pos) =~= text@.skip(bounds.1 as int));
            assert(seen.push(raw).drop_last() =~= seen);
            assert(seen + (seq![raw] + rest) =~= seen.push(raw) + rest);
        }
        match line {
            Line::Ignored => {},
            Line::Malformed => {
                proof {
                    assert(split_lines(text@)[seen.len() as int] == raw);
                }
                return Err(ParseError::MalformedHeader);
            },
            Line::Header(name) => {
                if !current.name.as_str().is_empty() {
                    let ghost before = finished.deep_view();
                    finished.push(current);
                    proof {
                        assert(finished.deep_view() =~= before.push(current.deep_view()));
                    }
                }
                current = Group { name: name, tags: Vec::new() };
                proof {
                    assert(current.tags.deep_view() =~= Seq::empty());
                }
            },
            Line::Tag(tag) => {
                if !current.name.as_str().is_empty() {
                    let ghost before = current.tags.deep_view();
                    current.tags.push(tag);
                    proof {
                        assert(current.tags.deep_view() =~= before.push(tag@));
                    }
                }
            },
        }
        proof {
            seen = seen.push(raw);
        }
        pos = bounds.1;
    }
    let ghost before = finished.deep_view();
    finished.push(current);
    proof {
        assert(seen + Seq::<Seq<char>>::empty() =~= seen);
        assert(finished.deep_view() =~= before.push(current.deep_view()));
    }
    Ok(finished)
}

} // verus!
