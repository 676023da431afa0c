//! Character sequences: white space, searching for a character, and trimming.
//!
//! Text is modelled as `Seq<char>`. The executable functions work on a slice of
//! characters and a pair of indices into it, so that a line, a comment-free
//! prefix or a trimmed name is never copied before it is known to be kept.

use vstd::prelude::*;

verus! {

/// `String::push` appends one character to the end of the string and leaves
/// the characters before it as they were.
pub assume_specification[ String::push ](s: &mut String, c: char)
    ensures
        final(s)@ == old(s)@.push(c),
;

/// The characters that count as white space: those with the Unicode property
/// `White_Space`.
pub open spec fn whitespace(c: char) -> bool {
    ||| ('\u{9}' <= c && c <= '\u{d}')
    ||| c == ' '
    ||| c == '\u{85}'
    ||| c == '\u{a0}'
    ||| c == '\u{1680}'
    ||| ('\u{2000}' <= c && c <= '\u{200a}')
    ||| c == '\u{2028}'
    ||| c == '\u{2029}'
    ||| c == '\u{202f}'
    ||| c == '\u{205f}'
    ||| c == '\u{3000}'
}

/// The index of the first occurrence of `c` in `s`, or `s.len()` where `c`
/// does not occur.
pub open spec fn find(s: Seq<char>, c: char) -> nat
    decreases s.len(),
{
    if s.len() == 0 || s[0] == c {
        0
    } else {
        1 + find(s.drop_first(), c)
    }
}

/// The number of white-space characters at the start of `s`.
pub open spec fn leading_whitespace(s: Seq<char>) -> nat
    decreases s.len(),
{
    if s.len() == 0 || !whitespace(s[0]) {
        0
    } else {
        1 + leading_whitespace(s.drop_first())
    }
}

/// The number of white-space characters at the end of `s`.
pub open spec fn trailing_whitespace(s: Seq<char>) -> nat
    decreases s.len(),
{
    if s.len() == 0 || !whitespace(s.last()) {
        0
    } else {
        1 + trailing_whitespace(s.drop_last())
    }
}

/// `s` without its leading white space.
pub open spec fn trim_start(s: Seq<char>) -> Seq<char> {
    s.skip(leading_whitespace(s) as int)
}

/// `s` without its trailing white space.
pub open spec fn trim_end(s: Seq<char>) -> Seq<char> {
    s.take(s.len() - trailing_whitespace(s))
}

/// `s` without its leading and trailing white space.
pub open spec fn trim(s: Seq<char>) -> Seq<char> {
    trim_end(trim_start(s))
}

/// `find(s, c)` is within `s`, no character before it is `c`, and the
/// character at it is `c` unless it is the length of `s`.
pub proof fn lemma_find(s: Seq<char>, c: char)
    ensures
        find(s, c) <= s.len(),
        forall|i: int| 0 <= i < find(s, c) ==> s[i] != c,
        find(s, c) < s.len() ==> s[find(s, c) as int] == c,
    decreases s.len(),
{
    if s.len() != 0 && s[0] != c {
        let t = s.drop_first();
        lemma_find(t, c);
        assert forall|i: int| 0 <= i < find(s, c) implies s[i] != c by {
            if i > 0 {
                assert(s[i] == t[i - 1]);
            }
        }
    }
}

/// The only index with the properties that `lemma_find` states is `find(s, c)`.
pub proof fn lemma_find_unique(s: Seq<char>, c: char, n: int)
    requires
        0 <= n <= s.len(),
        forall|i: int| 0 <= i < n ==> s[i] != c,
        n < s.len() ==> s[n] == c,
    ensures
        find(s, c) == n,
{
    lemma_find(s, c);
}

/// The leading white space of `s` lies within `s`, consists of white space,
/// and ends at the end of `s` or before a character that is none.
pub proof fn lemma_leading_whitespace(s: Seq<char>)
    ensures
        leading_whitespace(s) <= s.len(),
        forall|i: int| 0 <= i < leading_whitespace(s) ==> whitespace(s[i]),
        leading_whitespace(s) < s.len() ==> !whitespace(s[leading_whitespace(s) as int]),
    decreases s.len(),
{
    if s.len() != 0 && whitespace(s[0]) {
        let t = s.drop_first();
        lemma_leading_whitespace(t);
        assert forall|i: int| 0 <= i < leading_whitespace(s) implies whitespace(s[i]) by {
            if i > 0 {
                assert(s[i] == t[i - 1]);
            }
        }
    }
}

/// The only count with the properties that `lemma_leading_whitespace` states
/// is `leading_whitespace(s)`.
pub proof fn lemma_leading_whitespace_unique(s: Seq<char>, n: int)
    requires
        0 <= n <= s.len(),
        forall|i: int| 0 <= i < n ==> whitespace(s[i]),
        n < s.len() ==> !whitespace(s[n]),
    ensures
        leading_whitespace(s) == n,
{
    lemma_leading_whitespace(s);
}

/// The trailing white space of `s` lies within `s`, consists of white space,
/// and starts at the start of `s` or behind a character that is none.
pub proof fn lemma_trailing_whitespace(s: Seq<char>)
    ensures
        trailing_whitespace(s) <= s.len(),
        forall|i: int| s.len() - trailing_whitespace(s) <= i < s.len() ==> whitespace(s[i]),
        trailing_whitespace(s) < s.len() ==> !whitespace(
            s[s.len() - trailing_whitespace(s) - 1],
        ),
    decreases s.len(),
{
    if s.len() != 0 && whitespace(s.last()) {
        let t = s.drop_last();
        lemma_trailing_whitespace(t);
        assert forall|i: int| s.len() - trailing_whitespace(s) <= i < s.len() implies whitespace(
            s[i],
        ) by {
            if i < s.len() - 1 {
                assert(s[i] == t[i]);
            }
        }
    }
}

/// The only count with the properties that `lemma_trailing_whitespace` states
/// is `trailing_whitespace(s)`.
pub proof fn lemma_trailing_whitespace_unique(s: Seq<char>, n: int)
    requires
        0 <= n <= s.len(),
        forall|i: int| s.len() - n <= i < s.len() ==> whitespace(s[i]),
        n < s.len() ==> !whitespace(s[s.len() - n - 1]),
    ensures
        trailing_whitespace(s) == n,
{
    lemma_trailing_whitespace(s);
}

/// Whether `c` is white space.
pub fn is_whitespace(c: char) -> (b: bool)
    ensures
        b == whitespace(c),
{
    ('\u{9}' <= c && c <= '\u{d}') || c == ' ' || c == '\u{85}' || c == '\u{a0}' || c
        == '\u{1680}' || ('\u{2000}' <= c && c <= '\u{200a}') || c == '\u{2028}' || c
        == '\u{2029}' || c == '\u{202f}' || c == '\u{205f}' || c == '\u{3000}'
}

/// The characters of `text`, in order.
pub(crate) fn to_chars(text: &str) -> (chars: Vec<char>)
    ensures
        chars@ == text@,
{
    let mut chars: Vec<char> = Vec::new();
    for c in it: text.chars()
        invariant
            it.seq() == text@,
            chars@ == it.seq().take(it.index() as int),
    {
        chars.push(c);
    }
    chars
}

/// A string of the characters of `text` from `from` up to `to`.
pub(crate) fn substring(text: &[char], from: usize, to: usize) -> (s: String)
    requires
        from <= to <= text@.len(),
    ensures
        s@ == text@.subrange(from as int, to as int),
{
    let mut s = String::new();
    let mut i: usize = from;
    while i < to
        invariant
            from <= i <= to <= text@.len(),
            s@ == text@.subrange(from as int, i as int),
        decreases to - i,
    {
        s.push(text[i]);
        i += 1;
    }
    s
}

/// The index of the first `c` in `text` between `from` and `to`, or `to` where
/// there is none.
pub(crate) fn find_char(text: &[char], from: usize, to: usize, c: char) -> (at: usize)
    requires
        from <= to <= text@.len(),
    ensures
        from <= at <= to,
        at == from + find(text@.subrange(from as int, to as int), c),
{
    let mut i: usize = from;
    while i < to && text[i] != c
        invariant
            from <= i <= to <= text@.len(),
            forall|j: int| from <= j < i ==> text@[j] != c,
        decreases to - i,
    {
        i += 1;
    }
    proof {
        lemma_find_unique(text@.subrange(from as int, to as int), c, i - from);
    }
    i
}

/// The bounds of what is left of `text` between `from` and `to` when the white
/// space at both ends is taken away.
pub(crate) fn trim_bounds(text: &[char], from: usize, to: usize) -> (bounds: (usize, usize))
    requires
        from <= to <= text@.len(),
    ensures
        from <= bounds.0 <= bounds.1 <= to,
        bounds.0 == from + leading_whitespace(text@.subrange(from as int, to as int)),
        bounds.1 == to - trailing_whitespace(trim_start(text@.subrange(from as int, to as int))),
        text@.subrange(bounds.0 as int, bounds.1 as int) == trim(
            text@.subrange(from as int, to as int),
        ),
{
    let mut start: usize = from;
    while start < to && is_whitespace(text[start])
        invariant
            from <= start <= to <= text@.len(),
            forall|j: int| from <= j < start ==> whitespace(text@[j]),
        decreases to - start,
    {
        start += 1;
    }
    let mut end: usize = to;
    while start < end && is_whitespace(text[end - 1])
        invariant
            start <= end <= to <= text@.len(),
            forall|j: int| end <= j < to ==> whitespace(text@[j]),
        decreases end - start,
    {
        end -= 1;
    }
    proof {
        let whole = text@.subrange(from as int, to as int);
        lemma_leading_whitespace_unique(whole, start - from);
        let rest = trim_start(whole);
        assert(rest =~= text@.subrange(start as int, to as int));
        lemma_trailing_whitespace_unique(rest, to - end);
        assert(trim_end(rest) =~= text@.subrange(start as int, end as int));
    }
    (start, end)
}

} // verus!
