//! What holds of every text, proved from the definitions.

use crate::error::ParseError;
use crate::group::GroupView;
use crate::lines::{
    first_line, first_line_extent, first_line_len, lemma_first_line_len,
    lemma_first_line_len_unique, split_lines,
};
use crate::parser::TagParserView;
use crate::scan::{feed, parse_lines, parse_text, scan, scan_from, start, well_formed, Scan};
use crate::syntax::{before_comment, classify, content, is_ignored, LineView};
use crate::text::{leading_whitespace, lemma_find_unique, trailing_whitespace, trim, whitespace};
use vstd::prelude::*;

verus! {

/// The names that the headers among `lines` give, in order.
pub open spec fn header_names(lines: Seq<Seq<char>>) -> Seq<Seq<char>>
    decreases lines.len(),
{
    if lines.len() == 0 {
        Seq::empty()
    } else {
        match classify(lines.last()) {
            LineView::Header(name) => header_names(lines.drop_last()).push(name),
            _ => header_names(lines.drop_last()),
        }
    }
}

/// Whether every header among `lines` gives its group a name.
pub open spec fn headers_named(lines: Seq<Seq<char>>) -> bool {
    forall|i: int|
        0 <= i < lines.len() ==> (classify(#[trigger] lines[i]) matches LineView::Header(name)
            ==> name.len() > 0)
}

/// Whether each of `lines` is a tag, a comment or empty.
pub open spec fn no_headers(lines: Seq<Seq<char>>) -> bool {
    forall|i: int|
        0 <= i < lines.len() ==> (classify(#[trigger] lines[i]) is Tag || classify(lines[i])
            is Ignored)
}

/// Whether each of `lines` is a comment or empty.
pub open spec fn all_ignored(lines: Seq<Seq<char>>) -> bool {
    forall|i: int| 0 <= i < lines.len() ==> classify(#[trigger] lines[i]) is Ignored
}

/// A text that ends with a line feed can be split apart from what follows it:
/// the lines of the whole are the lines of the two parts.
pub proof fn lemma_split_lines_concat(head: Seq<char>, tail: Seq<char>)
    requires
        head.len() > 0,
        head.last() == '\n',
    ensures
        split_lines(head + tail) == split_lines(head) + split_lines(tail),
    decreases head.len(),
{
    let whole = head + tail;
    let n = first_line_len(head) as int;
    lemma_first_line_len(head);
    lemma_first_line_len_unique(whole, n);
    let extent = first_line_extent(head) as int;
    assert(first_line_extent(whole) == extent);
    let rest = head.skip(extent);
    assert(whole.take(n) =~= head.take(n));
    assert(whole.skip(extent) =~= rest + tail);
    let first = seq![first_line(head)];
    if rest.len() == 0 {
        assert(rest + tail =~= tail);
        assert(first + split_lines(rest) =~= first);
    } else {
        lemma_split_lines_concat(rest, tail);
        assert(first + (split_lines(rest) + split_lines(tail)) =~= (first + split_lines(rest))
            + split_lines(tail));
    }
}

/// Reading two runs of lines one after the other is reading them as one.
pub proof fn lemma_scan_concat(state: Scan, head: Seq<Seq<char>>, tail: Seq<Seq<char>>)
    ensures
        scan_from(state, head + tail) == scan_from(scan_from(state, head), tail),
    decreases tail.len(),
{
    if tail.len() == 0 {
        assert(head + tail =~= head);
    } else {
        lemma_scan_concat(state, head, tail.drop_last());
        assert((head + tail).drop_last() =~= head + tail.drop_last());
    }
}

/// A group that is finished stays as it is, and in its place, whatever lines
/// follow.
pub proof fn lemma_finished_stays(state: Scan, lines: Seq<Seq<char>>)
    ensures
        state.finished.len() <= scan_from(state, lines).finished.len(),
        forall|i: int|
            0 <= i < state.finished.len() ==> scan_from(state, lines).finished[i]
                == state.finished[i],
    decreases lines.len(),
{
    if lines.len() > 0 {
        lemma_finished_stays(state, lines.drop_last());
    }
}

/// Empty lines and comments leave the state as it is.
pub proof fn lemma_ignored_lines(state: Scan, lines: Seq<Seq<char>>)
    requires
        all_ignored(lines),
    ensures
        scan_from(state, lines) == state,
    decreases lines.len(),
{
    if lines.len() > 0 {
        let front = lines.drop_last();
        assert forall|i: int| 0 <= i < front.len() implies classify(#[trigger] front[i])
            is Ignored by {
            assert(front[i] == lines[i]);
        }
        lemma_ignored_lines(state, front);
        assert(lines.last() == lines[lines.len() - 1]);
    }
}

/// Where every header names its group, the groups finished and the one in the
/// making bear the names of the headers read, in order; before the first
/// header nothing is finished and the group in the making has no name.
pub proof fn lemma_names_follow_headers(lines: Seq<Seq<char>>)
    requires
        headers_named(lines),
    ensures
        header_names(lines).len() == 0 ==> scan(lines) == start(),
        header_names(lines).len() > 0 ==> {
            &&& scan(lines).finished.len() + 1 == header_names(lines).len()
            &&& scan(lines).current.name == header_names(lines).last()
            &&& forall|i: int|
                0 <= i < scan(lines).finished.len() ==> (#[trigger] scan(lines).finished[i]).name
                    == header_names(lines)[i]
        },
        forall|i: int|
            0 <= i < header_names(lines).len() ==> (#[trigger] header_names(lines)[i]).len() > 0,
    decreases lines.len(),
{
    if lines.len() > 0 {
        let front = lines.drop_last();
        assert forall|i: int| 0 <= i < front.len() implies (classify(
            #[trigger] front[i],
        ) matches LineView::Header(name) ==> name.len() > 0) by {
            assert(front[i] == lines[i]);
        }
        lemma_names_follow_headers(front);
        assert(lines.last() == lines[lines.len() - 1]);
    }
}

/// A text in which every header is closed and names its group gives as many
/// groups as it has headers, and they bear the headers' names in order. A text
/// without a header gives one group, which has no name and no tags.
pub proof fn lemma_groups_follow_headers(text: Seq<char>)
    requires
        well_formed(split_lines(text)),
        headers_named(split_lines(text)),
    ensures
        parse_text(text) matches Ok(groups) && ({
            let names = header_names(split_lines(text));
            if names.len() == 0 {
                groups == seq![GroupView { name: Seq::empty(), tags: Seq::empty() }]
            } else {
                &&& groups.len() == names.len()
                &&& forall|i: int| 0 <= i < names.len() ==> (#[trigger] groups[i]).name == names[i]
            }
        }),
{
    let lines = split_lines(text);
    lemma_names_follow_headers(lines);
    if header_names(lines).len() == 0 {
        assert(parse_text(text)->Ok_0 =~= seq![
            GroupView { name: Seq::empty(), tags: Seq::empty() },
        ]);
    }
}

/// Between two parses nothing is reset: a parser that parses a text without
/// error a second time holds that text's groups twice, so that the second
/// parse always changes what the first one left.
pub proof fn lemma_parse_twice(parser: TagParserView)
    requires
        parse_text(parser.data) is Ok,
    ensures
        parser.parsed().parsed().groups == parser.groups + parse_text(parser.data)->Ok_0
            + parse_text(parser.data)->Ok_0,
        parser.parsed().parsed() != parser.parsed(),
{
    let found = parse_text(parser.data)->Ok_0;
    assert(found.len() >= 1);
    assert(parser.parsed().groups.len() == parser.groups.len() + found.len());
    assert(parser.parsed().parsed().groups.len() == parser.parsed().groups.len() + found.len());
}

/// A text that is in error leaves a parser as it was, however often it is
/// parsed.
pub proof fn lemma_parse_error_changes_nothing(parser: TagParserView)
    requires
        parse_text(parser.data) is Err,
    ensures
        parser.parsed() == parser,
{
}

/// Tags, comments and empty lines before the first header are dropped: the
/// lines behind them give the same groups with them and without.
pub proof fn lemma_orphans_are_dropped(orphans: Seq<Seq<char>>, rest: Seq<Seq<char>>)
    requires
        no_headers(orphans),
    ensures
        scan(orphans) == start(),
        parse_lines(orphans + rest) == parse_lines(rest),
{
    lemma_orphans_leave_start(orphans);
    lemma_scan_concat(start(), orphans, rest);
    let whole = orphans + rest;
    if well_formed(rest) {
        assert forall|i: int| 0 <= i < whole.len() implies !(classify(#[trigger] whole[i])
            is Malformed) by {
            if i < orphans.len() {
                assert(whole[i] == orphans[i]);
            } else {
                assert(whole[i] == rest[i - orphans.len()]);
            }
        }
    } else {
        let i = choose|i: int| 0 <= i < rest.len() && classify(#[trigger] rest[i]) is Malformed;
        assert(whole[orphans.len() + i] == rest[i]);
    }
}

/// A text made of whole lines, none of them a header, can stand before any
/// text without a trace in its groups.
pub proof fn lemma_orphan_text_is_dropped(orphans: Seq<char>, rest: Seq<char>)
    requires
        orphans.len() > 0 ==> orphans.last() == '\n',
        no_headers(split_lines(orphans)),
    ensures
        parse_text(orphans + rest) == parse_text(rest),
{
    if orphans.len() == 0 {
        assert(orphans + rest =~= rest);
    } else {
        lemma_split_lines_concat(orphans, rest);
        lemma_orphans_are_dropped(split_lines(orphans), split_lines(rest));
    }
}

/// Lines without a header leave the state at the start.
pub proof fn lemma_orphans_leave_start(orphans: Seq<Seq<char>>)
    requires
        no_headers(orphans),
    ensures
        scan(orphans) == start(),
    decreases orphans.len(),
{
    if orphans.len() > 0 {
        let front = orphans.drop_last();
        assert forall|i: int| 0 <= i < front.len() implies (classify(#[trigger] front[i]) is Tag
            || classify(front[i]) is Ignored) by {
            assert(front[i] == orphans[i]);
        }
        lemma_orphans_leave_start(front);
        assert(orphans.last() == orphans[orphans.len() - 1]);
    }
}

/// What follows the first `#` of a line is no part of its content: a line made
/// of `tag`, a `#` and `note` has the content of `tag` alone.
pub proof fn lemma_comment_is_dropped(tag: Seq<char>, note: Seq<char>)
    requires
        !tag.contains('#'),
    ensures
        content(tag + seq!['#'] + note) == trim(tag),
        content(tag) == trim(tag),
{
    let line = tag + seq!['#'] + note;
    assert forall|i: int| 0 <= i < tag.len() implies tag[i] != '#' by {
        assert(tag.contains(tag[i]));
    }
    lemma_find_unique(line, '#', tag.len() as int);
    assert(before_comment(line) =~= tag);
    lemma_find_unique(tag, '#', tag.len() as int);
    assert(before_comment(tag) =~= tag);
}

/// A line is one tag, kept whole and unchanged, whatever characters and
/// however many words it holds, if it has no `#`, starts with neither `[` nor
/// white space, and does not end with white space. Read under a group with a
/// name, it becomes the last of that group's tags.
pub proof fn lemma_tag_is_kept_whole(line: Seq<char>)
    requires
        line.len() > 0,
        !line.contains('#'),
        line[0] != '[',
        !whitespace(line[0]),
        !whitespace(line.last()),
    ensures
        classify(line) == LineView::Tag(line),
        forall|state: Scan|
            state.current.name.len() > 0 ==> (#[trigger] feed(state, classify(line))).current.tags
                == state.current.tags.push(line),
{
    lemma_comment_is_dropped(line, Seq::empty());
    assert(line.contains(line[0]));
    assert(leading_whitespace(line) == 0);
    assert(line.skip(0) =~= line);
    assert(trailing_whitespace(line) == 0);
    assert(line.take(line.len() as int) =~= line);
}

/// A header that names a group and is followed, after nothing but comments and
/// empty lines, by another header or by the end of the lines gives a group
/// without tags. `before` holds the lines before the header, `gap` those
/// between it and `after`, which is empty or starts with the next header.
pub proof fn lemma_empty_group(
    before: Seq<Seq<char>>,
    header: Seq<char>,
    gap: Seq<Seq<char>>,
    after: Seq<Seq<char>>,
)
    requires
        classify(header) is Header,
        classify(header)->Header_0.len() > 0,
        all_ignored(gap),
        after.len() == 0 || classify(after[0]) is Header,
        well_formed(before.push(header) + gap + after),
    ensures
        parse_lines(before.push(header) + gap + after) matches Ok(groups) && ({
            let at = scan(before.push(header)).finished.len() as int;
            &&& at < groups.len()
            &&& groups[at] == (GroupView {
                name: classify(header)->Header_0,
                tags: Seq::empty(),
            })
        }),
{
    let opened = before.push(header);
    let group = GroupView { name: classify(header)->Header_0, tags: Seq::empty() };
    assert(opened.drop_last() =~= before);
    let s0 = scan(opened);
    assert(s0.current == group);
    lemma_scan_concat(start(), opened, gap);
    lemma_ignored_lines(s0, gap);
    assert(scan(opened + gap) == s0);
    lemma_scan_concat(start(), opened + gap, after);
    if after.len() == 0 {
        assert(opened + gap + after =~= opened + gap);
    } else {
        let next = seq![after[0]];
        let rest = after.skip(1);
        assert(after =~= next + rest);
        lemma_scan_concat(s0, next, rest);
        let s1 = scan_from(s0, next);
        assert(scan_from(s0, next.drop_last()) == s0);
        assert(s1.finished == s0.finished.push(group));
        lemma_finished_stays(s1, rest);
        let end = scan_from(s1, rest);
        assert(scan(opened + gap + after) == end);
        assert(end.finished[s0.finished.len() as int] == s1.finished[s0.finished.len() as int]);
    }
}

/// A text fails to parse if one of its lines has content that starts with `[`
/// and does not end with `]`, and then the failure is a malformed header.
pub proof fn lemma_unclosed_header_fails(text: Seq<char>, at: int)
    requires
        0 <= at < split_lines(text).len(),
        !is_ignored(split_lines(text)[at]),
        content(split_lines(text)[at]).len() > 0,
        content(split_lines(text)[at])[0] == '[',
        content(split_lines(text)[at]).last() != ']',
    ensures
        parse_text(text) == Err::<Seq<GroupView>, ParseError>(ParseError::MalformedHeader),
{
    assert(classify(split_lines(text)[at]) is Malformed);
}

/// Of the groups that a text gives, only the last can be without a name, and
/// a group without a name has no tags.
pub proof fn lemma_unnamed_group(text: Seq<char>)
    requires
        parse_text(text) is Ok,
    ensures
        ({
            let groups = parse_text(text)->Ok_0;
            &&& groups.len() >= 1
            &&& forall|i: int| 0 <= i < groups.len() - 1 ==> (#[trigger] groups[i]).name.len() > 0
            &&& forall|i: int|
                0 <= i < groups.len() && (#[trigger] groups[i]).name.len() == 0
                    ==> groups[i].tags.len() == 0
        }),
{
    lemma_unnamed_scan(split_lines(text));
}

/// Every finished group has a name, and a group in the making without a name
/// has no tags.
pub proof fn lemma_unnamed_scan(lines: Seq<Seq<char>>)
    ensures
        forall|i: int|
            0 <= i < scan(lines).finished.len() ==> (#[trigger] scan(lines).finished[i]).name.len()
                > 0,
        scan(lines).current.name.len() == 0 ==> scan(lines).current.tags.len() == 0,
    decreases lines.len(),
{
    if lines.len() > 0 {
        lemma_unnamed_scan(lines.drop_last());
    }
}

} // verus!
