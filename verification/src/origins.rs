//! Where the tokens of a normalized token stream came from. A stream of tokens with their own
//! spans is laid out contiguously for parsing; these origins translate a range of the laid-out
//! text back to the spans the tokens arrived with.
use vstd::prelude::*;
use crate::lexer::Lexeme;
use crate::span::Span;
use vstd::utf8::encode_utf8;

verus! {

/// One token's range in the laid-out text and the span it arrived with.
#[derive(Clone, Copy, Debug, PartialEq, Eq)]
pub struct TokenOrigin {
    pub synthetic: Span,
    pub original: Span,
}

/// The origins of all tokens, in order, and the span of the end of input.
#[derive(Clone, Debug)]
pub struct TokenOrigins {
    pub entries: Vec<TokenOrigin>,
    pub eof_span: Span,
}

/// The smallest span covering both.
pub open spec fn merged(a: Span, b: Span) -> Span {
    Span {
        start: if a.start <= b.start { a.start } else { b.start },
        end: if a.end >= b.end { a.end } else { b.end },
    }
}

/// The first entry from `k` on whose laid-out range is exactly `span`.
pub open spec fn first_exact(e: Seq<TokenOrigin>, span: Span, k: nat) -> Option<nat>
    decreases e.len() - k,
{
    if k >= e.len() {
        None
    } else if e[k as int].synthetic == span {
        Some(k)
    } else {
        first_exact(e, span, k + 1)
    }
}

/// `acc` merged with the origins of every entry from `k` on whose laid-out range is exactly
/// `span`, in order.
pub open spec fn merge_exact(e: Seq<TokenOrigin>, span: Span, k: nat, acc: Span) -> Span
    decreases e.len() - k,
{
    if k >= e.len() {
        acc
    } else if e[k as int].synthetic == span {
        merge_exact(e, span, k + 1, merged(acc, e[k as int].original))
    } else {
        merge_exact(e, span, k + 1, acc)
    }
}

/// The last entry before `k` whose laid-out range ends at `end`.
pub open spec fn last_ending_at(e: Seq<TokenOrigin>, end: usize, k: int) -> Option<int>
    decreases k,
{
    if k <= 0 {
        None
    } else if e[k - 1].synthetic.end == end {
        Some(k - 1)
    } else {
        last_ending_at(e, end, k - 1)
    }
}

/// The first entry from `k` on whose laid-out range starts at `start`.
pub open spec fn first_starting_at(e: Seq<TokenOrigin>, start: usize, k: nat) -> Option<nat>
    decreases e.len() - k,
{
    if k >= e.len() {
        None
    } else if e[k as int].synthetic.start == start {
        Some(k)
    } else {
        first_starting_at(e, start, k + 1)
    }
}

/// The first entry from `k` on that starts inside `span`.
pub open spec fn first_inside(e: Seq<TokenOrigin>, span: Span, k: nat) -> Option<nat>
    decreases e.len() - k,
{
    if k >= e.len() {
        None
    } else if e[k as int].synthetic.start >= span.start && e[k as int].synthetic.start < span.end {
        Some(k)
    } else {
        first_inside(e, span, k + 1)
    }
}

/// The last entry before `k` that ends inside `span`.
pub open spec fn last_inside(e: Seq<TokenOrigin>, span: Span, k: int) -> Option<int>
    decreases k,
{
    if k <= 0 {
        None
    } else if e[k - 1].synthetic.end > span.start && e[k - 1].synthetic.end <= span.end {
        Some(k - 1)
    } else {
        last_inside(e, span, k - 1)
    }
}

/// Where a laid-out range came from. An empty range maps to the merged origins of the tokens
/// laid out exactly there, else to the end of the last token ending there, else to the start of
/// the first token starting there, else to the end of input. A nonempty range maps to the
/// origins of its first and last tokens merged, or of the one it has, or to the end of input.
pub open spec fn rebase_spec(e: Seq<TokenOrigin>, eof: Span, span: Span) -> Span {
    if span.start == span.end {
        match first_exact(e, span, 0) {
            Some(i) => merge_exact(e, span, i + 1, e[i as int].original),
            None => match last_ending_at(e, span.end, e.len() as int) {
                Some(i) => Span { start: e[i].original.end, end: e[i].original.end },
                None => match first_starting_at(e, span.start, 0) {
                    Some(i) => Span { start: e[i as int].original.start, end: e[i as int].original.start },
                    None => eof,
                },
            },
        }
    } else {
        match (first_inside(e, span, 0), last_inside(e, span, e.len() as int)) {
            (Some(a), Some(b)) => merged(e[a as int].original, e[b].original),
            (Some(a), None) => e[a as int].original,
            (None, Some(b)) => e[b].original,
            (None, None) => eof,
        }
    }
}

/// The bytes taken by the texts of the first `k` lexemes.
pub open spec fn text_bytes(ls: Seq<Lexeme>, k: int) -> int
    decreases k,
{
    if k <= 0 { 0 } else { text_bytes(ls, k - 1) + encode_utf8(ls[k - 1].text@).len() }
}

impl TokenOrigins {
    /// Translates a range of the laid-out text back to the spans the tokens arrived with.
    pub fn rebase(&self, span: Span) -> (r: Span)
        ensures
            r == rebase_spec(self.entries@, self.eof_span, span),
    {
        let e = &self.entries;
        let n = e.len();
        if span.start == span.end {
            let mut k: usize = 0;
            while k < n
                invariant
                    k <= n == e@.len(),
                    e@ == self.entries@,
                    span.start == span.end,
                    first_exact(e@, span, 0) == first_exact(e@, span, k as nat),
                decreases n - k,
            {
                if e[k].synthetic == span {
                    let mut acc = e[k].original;
                    let mut j = k + 1;
                    while j < n
                        invariant
                            k < j <= n == e@.len(),
                            e@ == self.entries@,
                            span.start == span.end,
                            first_exact(e@, span, 0) == Some(k as nat),
                            merge_exact(e@, span, (k + 1) as nat, e@[k as int].original)
                                == merge_exact(e@, span, j as nat, acc),
                        decreases n - j,
                    {
                        if e[j].synthetic == span {
                            acc = acc.merge(e[j].original);
                        }
                        j = j + 1;
                    }
                    return acc;
                }
                k = k + 1;
            }
            let mut k: usize = n;
            while k > 0
                invariant
                    k <= n == e@.len(),
                    e@ == self.entries@,
                    span.start == span.end,
                    first_exact(e@, span, 0) is None,
                    last_ending_at(e@, span.end, n as int) == last_ending_at(e@, span.end, k as int),
                decreases k,
            {
                if e[k - 1].synthetic.end == span.end {
                    let end = e[k - 1].original.end;
                    return Span::new(end, end);
                }
                k = k - 1;
            }
            let mut k: usize = 0;
            while k < n
                invariant
                    k <= n == e@.len(),
                    e@ == self.entries@,
                    span.start == span.end,
                    first_exact(e@, span, 0) is None,
                    last_ending_at(e@, span.end, n as int) is None,
                    first_starting_at(e@, span.start, 0) == first_starting_at(e@, span.start, k as nat),
                decreases n - k,
            {
                if e[k].synthetic.start == span.start {
                    let start = e[k].original.start;
                    return Span::new(start, start);
                }
                k = k + 1;
            }
            return self.eof_span;
        }
        let first = find_first_inside(e, span);
        let last = find_last_inside(e, span);
        match (first, last) {
            (Some(a), Some(b)) => e[a].original.merge(e[b].original),
            (Some(a), None) => e[a].original,
            (None, Some(b)) => e[b].original,
            (None, None) => self.eof_span,
        }
    }
}

/// The first entry that starts inside `span`.
fn find_first_inside(e: &Vec<TokenOrigin>, span: Span) -> (r: Option<usize>)
    ensures
        match r {
            Some(a) => first_inside(e@, span, 0) == Some(a as nat) && a < e@.len(),
            None => first_inside(e@, span, 0) is None,
        },
{
    let n = e.len();
    let mut k: usize = 0;
    while k < n
        invariant
            k <= n == e@.len(),
            first_inside(e@, span, 0) == first_inside(e@, span, k as nat),
        decreases n - k,
    {
        if e[k].synthetic.start >= span.start && e[k].synthetic.start < span.end {
            return Some(k);
        }
        k = k + 1;
    }
    None
}

/// The last entry that ends inside `span`.
fn find_last_inside(e: &Vec<TokenOrigin>, span: Span) -> (r: Option<usize>)
    ensures
        match r {
            Some(b) => last_inside(e@, span, e@.len() as int) == Some(b as int) && b < e@.len(),
            None => last_inside(e@, span, e@.len() as int) is None,
        },
{
    let n = e.len();
    let mut k: usize = n;
    while k > 0
        invariant
            k <= n == e@.len(),
            last_inside(e@, span, n as int) == last_inside(e@, span, k as int),
        decreases k,
    {
        if e[k - 1].synthetic.end > span.start && e[k - 1].synthetic.end <= span.end {
            return Some(k - 1);
        }
        k = k - 1;
    }
    None
}

/// The origins of lexemes laid out one after another from offset zero, each as long as its
/// text's UTF-8 encoding.
pub fn token_origins(lexemes: &[Lexeme], eof_span: Span) -> (r: TokenOrigins)
    requires
        text_bytes(lexemes@, lexemes@.len() as int) <= usize::MAX,
    ensures
        r.eof_span == eof_span,
        r.entries@.len() == lexemes@.len(),
        forall|k: int|
            0 <= k < lexemes@.len() ==> #[trigger] r.entries@[k] == (TokenOrigin {
                synthetic: Span {
                    start: text_bytes(lexemes@, k) as usize,
                    end: text_bytes(lexemes@, k + 1) as usize,
                },
                original: lexemes@[k].span,
            }),
{
    let mut entries: Vec<TokenOrigin> = Vec::new();
    let mut offset: usize = 0;
    let mut k: usize = 0;
    while k < lexemes.len()
        invariant
            k <= lexemes@.len(),
            text_bytes(lexemes@, lexemes@.len() as int) <= usize::MAX,
            offset == text_bytes(lexemes@, k as int),
            entries@.len() == k,
            forall|q: int|
                0 <= q < k ==> #[trigger] entries@[q] == (TokenOrigin {
                    synthetic: Span {
                        start: text_bytes(lexemes@, q) as usize,
                        end: text_bytes(lexemes@, q + 1) as usize,
                    },
                    original: lexemes@[q].span,
                }),
        decreases lexemes@.len() - k,
    {
        proof {
            lemma_text_bytes_grow(lexemes@, k + 1, lexemes@.len() as int);
        }
        let start = offset;
        let width = lexemes[k].text.as_str().len();
        offset = offset + width;
        entries.push(TokenOrigin { synthetic: Span::new(start, offset), original: lexemes[k].span });
        k = k + 1;
    }
    TokenOrigins { entries, eof_span }
}

/// The bytes of more lexemes are at least those of fewer.
proof fn lemma_text_bytes_grow(ls: Seq<Lexeme>, a: int, b: int)
    requires
        0 <= a <= b,
    ensures
        text_bytes(ls, a) <= text_bytes(ls, b),
    decreases b - a,
{
    if a < b {
        lemma_text_bytes_grow(ls, a, b - 1);
    }
}


/// Laid-out ranges that are nonempty and follow one another without gaps.
pub open spec fn contiguous(e: Seq<TokenOrigin>) -> bool {
    &&& forall|q: int| 0 <= q < e.len() ==> (#[trigger] e[q]).synthetic.start < e[q].synthetic.end
    &&& forall|q: int| 0 < q < e.len() ==> (#[trigger] e[q]).synthetic.start == e[q - 1].synthetic.end
}

/// In contiguous ranges, an earlier one ends no later than a later one starts.
proof fn lemma_ordered(e: Seq<TokenOrigin>, a: int, b: int)
    requires
        contiguous(e),
        0 <= a < b < e.len(),
    ensures
        e[a].synthetic.end <= e[b].synthetic.start,
    decreases b - a,
{
    assert(e[b].synthetic.start == e[b - 1].synthetic.end);
    if a < b - 1 {
        lemma_ordered(e, a, b - 1);
        assert(e[b - 1].synthetic.start < e[b - 1].synthetic.end);
    }
}

proof fn lemma_first_inside_is(e: Seq<TokenOrigin>, span: Span, q: nat, k: nat)
    requires
        q <= k < e.len(),
        e[k as int].synthetic.start >= span.start && e[k as int].synthetic.start < span.end,
        forall|p: int| q <= p < k ==> (#[trigger] e[p]).synthetic.start < span.start,
    ensures
        first_inside(e, span, q) == Some(k),
    decreases k - q,
{
    if q < k {
        lemma_first_inside_is(e, span, q + 1, k);
    }
}

proof fn lemma_last_inside_is(e: Seq<TokenOrigin>, span: Span, q: int, k: int)
    requires
        0 <= k < q <= e.len(),
        e[k].synthetic.end > span.start && e[k].synthetic.end <= span.end,
        forall|p: int| k < p < q ==> (#[trigger] e[p]).synthetic.end > span.end,
    ensures
        last_inside(e, span, q) == Some(k),
    decreases q - k,
{
    if q > k + 1 {
        lemma_last_inside_is(e, span, q - 1, k);
    }
}

/// Rebasing undoes the layout: the laid-out range of one token maps back to the span it
/// arrived with.
pub proof fn lemma_rebase_token(e: Seq<TokenOrigin>, eof: Span, k: int)
    requires
        contiguous(e),
        0 <= k < e.len(),
    ensures
        rebase_spec(e, eof, e[k].synthetic) == e[k].original,
{
    let span = e[k].synthetic;
    assert forall|p: int| 0 <= p < k implies (#[trigger] e[p]).synthetic.start < span.start by {
        lemma_ordered(e, p, k);
    }
    assert forall|p: int| k < p < e.len() implies (#[trigger] e[p]).synthetic.end > span.end by {
        lemma_ordered(e, k, p);
    }
    lemma_first_inside_is(e, span, 0, k as nat);
    lemma_last_inside_is(e, span, e.len() as int, k);
}

} // verus!
