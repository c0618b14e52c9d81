use vstd::prelude::*;

use crate::lexer::{byte_offset, lemma_byte_offset_step, utf8_width};
use crate::text::chars_of;

verus! {

/// A half-open byte range `[start, end)` in a source text.
#[derive(Clone, Copy, Debug, PartialEq, Eq, Structural)]
pub struct Span {
    pub start: usize,
    pub end: usize,
}

impl Span {
    pub fn new(start: usize, end: usize) -> (span: Span)
        ensures
            span.start == start,
            span.end == end,
    {
        Span { start, end }
    }

    /// The smallest span covering both `self` and `other`.
    pub fn merge(self, other: Span) -> (span: Span)
        ensures
            span.start == if self.start <= other.start { self.start } else { other.start },
            span.end == if self.end >= other.end { self.end } else { other.end },
    {
        let start = if self.start <= other.start { self.start } else { other.start };
        let end = if self.end >= other.end { self.end } else { other.end };
        Span { start, end }
    }
}


/// The number of characters of `s` that end at or before byte `offset`, counting from `p`.
pub open spec fn chars_within(s: Seq<char>, offset: int, p: nat) -> nat
    decreases s.len() - p,
{
    if p < s.len() && byte_offset(s, p + 1int) <= offset {
        chars_within(s, offset, p + 1)
    } else {
        p
    }
}

/// The number of line feeds in `s`.
pub open spec fn newlines(s: Seq<char>) -> nat
    decreases s.len(),
{
    if s.len() == 0 {
        0
    } else {
        newlines(s.drop_last()) + if s.last() == '\n' { 1nat } else { 0nat }
    }
}

/// Where the last line of `s` starts: just after its last line feed, or at the start.
pub open spec fn line_start(s: Seq<char>) -> nat
    decreases s.len(),
{
    if s.len() == 0 {
        0
    } else if s.last() == '\n' {
        s.len()
    } else {
        line_start(s.drop_last())
    }
}

/// The one-based line and column of byte `offset`: lines are counted by line feeds, columns by
/// characters.
pub open spec fn position_of(s: Seq<char>, offset: int) -> (int, int) {
    let before = s.subrange(0, chars_within(s, offset, 0) as int);
    (1 + newlines(before) as int, 1 + before.len() - line_start(before))
}

proof fn lemma_line_start_bound(s: Seq<char>)
    ensures
        line_start(s) <= s.len(),
        newlines(s) <= s.len(),
    decreases s.len(),
{
    if s.len() > 0 {
        lemma_line_start_bound(s.drop_last());
    }
}

/// The one-based line and column of a byte offset in `source`.
pub fn line_column(source: &str, offset: usize) -> (r: (usize, usize))
    requires
        source@.len() < usize::MAX,
    ensures
        r.0 == position_of(source@, offset as int).0,
        r.1 == position_of(source@, offset as int).1,
{
    let chars = chars_of(source);
    let ghost s = chars@;
    let total = source.as_bytes().len();
    proof {
        assert(s.subrange(0, s.len() as int) =~= s);
        assert(s.subrange(0, 0) =~= Seq::<char>::empty());
    }
    let mut p: usize = 0;
    let mut bytes: usize = 0;
    let mut lines: usize = 0;
    let mut start: usize = 0;
    let n = chars.len();
    while p < n
        invariant
            p <= s.len(),
            n == s.len(),
            s.len() < usize::MAX,
            s == chars@,
            total == byte_offset(s, s.len() as int),
            bytes == byte_offset(s, p as int),
            byte_offset(s, p as int) <= offset,
            chars_within(s, offset as int, 0) == chars_within(s, offset as int, p as nat),
            lines == newlines(s.subrange(0, p as int)),
            start == line_start(s.subrange(0, p as int)),
        ensures
            chars_within(s, offset as int, p as nat) == p,
            p <= s.len(),
            lines == newlines(s.subrange(0, p as int)),
            start == line_start(s.subrange(0, p as int)),
            chars_within(s, offset as int, 0) == chars_within(s, offset as int, p as nat),
        decreases s.len() - p,
    {
        proof {
            lemma_byte_offset_step(s, p as int);
            assert(s.subrange(0, p + 1).drop_last() =~= s.subrange(0, p as int));
            lemma_line_start_bound(s.subrange(0, p as int));
        }
        let width = utf8_width(chars[p]);
        if bytes + width > offset {
            break;
        }
        if chars[p] == '\n' {
            lines = lines + 1;
            start = p + 1;
        }
        bytes = bytes + width;
        p = p + 1;
    }
    proof {
        lemma_line_start_bound(s.subrange(0, p as int));
    }
    (1 + lines, 1 + p - start)
}

} // verus!
