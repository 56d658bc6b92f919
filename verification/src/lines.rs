//! Splitting text into lines.
//!
//! A line ends at a line feed, and a carriage return just before that line
//! feed belongs to the line ending. What follows the last line feed is a line
//! of its own unless it is empty, and a carriage return at its end stays.
use vstd::prelude::*;
use vstd::slice::slice_subrange;
use crate::text::{from_chars, is_single_line, to_chars};

verus! {

/// The number of characters of `s` before its first line feed, or the length
/// of `s` if it has none.
pub open spec fn line_len(s: Seq<char>) -> nat
    decreases s.len(),
{
    if s.len() == 0 || s[0] == '\n' {
        0
    } else {
        1 + line_len(s.drop_first())
    }
}

/// `line` without a carriage return at its end.
pub open spec fn without_cr(line: Seq<char>) -> Seq<char> {
    if line.len() > 0 && line.last() == '\r' {
        line.drop_last()
    } else {
        line
    }
}

/// The lines of `s`, without their line endings.
pub open spec fn lines_of(s: Seq<char>) -> Seq<Seq<char>>
    decreases s.len(),
{
    if s.len() == 0 {
        seq![]
    } else {
        let n = line_len(s) as int;
        if n >= s.len() {
            seq![s]
        } else {
            seq![without_cr(s.take(n))] + lines_of(s.skip(n + 1))
        }
    }
}

/// The text of each of `lines`.
pub open spec fn texts(lines: Seq<String>) -> Seq<Seq<char>> {
    Seq::new(lines.len(), |i: int| lines[i]@)
}

/// `line_len` stops at the first line feed: no line feed stands before it,
/// and one stands at it unless the text ends there.
pub proof fn lemma_line_len(s: Seq<char>)
    ensures
        line_len(s) <= s.len(),
        forall|i: int| 0 <= i < line_len(s) ==> s[i] != '\n',
        line_len(s) < s.len() ==> s[line_len(s) as int] == '\n',
    decreases s.len(),
{
    if s.len() > 0 && s[0] != '\n' {
        let rest = s.drop_first();
        lemma_line_len(rest);
        assert forall|i: int| 0 <= i < line_len(s) implies s[i] != '\n' by {
            if i > 0 {
                assert(s[i] == rest[i - 1]);
            }
        }
    }
}

/// No line holds a line feed.
pub proof fn lemma_lines_hold_no_line_feed(s: Seq<char>, k: int)
    requires
        0 <= k < lines_of(s).len(),
    ensures
        is_single_line(lines_of(s)[k]),
    decreases s.len(),
{
    lemma_line_len(s);
    let n = line_len(s) as int;
    if n == s.len() {
    } else if k == 0 {
        let line = s.take(n);
        assert(forall|i: int| 0 <= i < line.len() ==> line[i] == s[i]);
        assert(forall|i: int| 0 <= i < without_cr(line).len() ==> without_cr(line)[i] == line[i]);
    } else {
        lemma_lines_hold_no_line_feed(s.skip(n + 1), k - 1);
    }
}

/// The position of the first line feed of `text` at or after `from`, or the
/// length of `text` if none follows.
pub(crate) fn line_end(text: &[char], from: usize) -> (end: usize)
    requires
        from <= text.len(),
    ensures
        from <= end <= text.len(),
        end - from == line_len(text@.skip(from as int)),
{
    let mut end: usize = from;
    while end < text.len() && text[end] != '\n'
        invariant
            from <= end <= text.len(),
            line_len(text@.skip(from as int)) == (end - from) + line_len(text@.skip(end as int)),
        decreases text.len() - end,
    {
        assert(text@.skip(end as int).drop_first() == text@.skip(end + 1));
        end += 1;
    }
    end
}

/// The first line of what `text` holds from `from` on, as the position where
/// it stops, and the position where the lines after it begin.
pub(crate) fn next_line(text: &[char], from: usize) -> (r: (usize, usize))
    requires
        from < text.len(),
    ensures
        from <= r.0 <= r.1 <= text.len(),
        from < r.1,
        lines_of(text@.skip(from as int)) == seq![text@.subrange(from as int, r.0 as int)]
            + lines_of(text@.skip(r.1 as int)),
{
    let end = line_end(text, from);
    let ghost rest = text@.skip(from as int);
    if end == text.len() {
        proof {
            assert(text@.subrange(from as int, end as int) == rest);
            assert(lines_of(text@.skip(end as int)) == Seq::<Seq<char>>::empty());
        }
        (end, end)
    } else {
        let stop = if end > from && text[end - 1] == '\r' {
            end - 1
        } else {
            end
        };
        proof {
            let n = end - from;
            assert(rest.take(n) == text@.subrange(from as int, end as int));
            assert(without_cr(rest.take(n)) == text@.subrange(from as int, stop as int));
            assert(rest.skip(n + 1) == text@.skip(end + 1));
        }
        (stop, end + 1)
    }
}

/// The lines of `text`, without their line endings.
pub fn lines(text: &str) -> (out: Vec<String>)
    ensures
        texts(out@) == lines_of(text@),
{
    let chars = to_chars(text);
    let mut out: Vec<String> = Vec::new();
    let mut pos: usize = 0;
    assert(chars@.skip(0) == chars@);
    while pos < chars.len()
        invariant
            pos <= chars.len(),
            texts(out@) + lines_of(chars@.skip(pos as int)) == lines_of(chars@),
        decreases chars.len() - pos,
    {
        let (stop, next) = next_line(&chars, pos);
        let line = from_chars(slice_subrange(&chars, pos, stop));
        let ghost before = out@;
        out.push(line);
        proof {
            assert(texts(out@) == texts(before) + seq![line@]);
        }
        pos = next;
    }
    out
}

} // verus!
