//! Decimal digit strings and their values.
use vstd::prelude::*;

verus! {

/// Whether a character is an ASCII decimal digit.
pub open spec fn is_digit(c: char) -> bool {
    '0' <= c && c <= '9'
}

/// The first position at or after `i` that does not hold a digit.
pub open spec fn digits_end(s: Seq<char>, i: nat) -> nat
    decreases s.len() - i,
{
    if i < s.len() && is_digit(s[i as int]) {
        digits_end(s, i + 1)
    } else {
        i
    }
}

/// The value of the decimal digits of `s` in `[from, to)`.
pub open spec fn digits_value(s: Seq<char>, from: int, to: int) -> int
    decreases to - from,
{
    if to <= from {
        0
    } else {
        digits_value(s, from, to - 1) * 10 + (s[to - 1] as int - '0' as int)
    }
}

/// The value of digits is never negative.
pub proof fn lemma_digits_value_bounds(s: Seq<char>, from: int, to: int)
    requires
        0 <= from <= to <= s.len(),
        forall|k: int| from <= k < to ==> is_digit(#[trigger] s[k]),
    ensures
        0 <= digits_value(s, from, to),
    decreases to - from,
{
    if to > from {
        lemma_digits_value_bounds(s, from, to - 1);
    }
}

/// Reading more digits never makes the value smaller.
pub proof fn lemma_digits_grow(s: Seq<char>, from: int, mid: int, to: int)
    requires
        0 <= from <= mid <= to <= s.len(),
        forall|k: int| from <= k < to ==> is_digit(#[trigger] s[k]),
    ensures
        digits_value(s, from, mid) <= digits_value(s, from, to),
    decreases to - mid,
{
    if mid < to {
        lemma_digits_grow(s, from, mid, to - 1);
        lemma_digits_value_bounds(s, from, to - 1);
    }
}

/// Every position from `from` up to where the digits end holds a digit.
pub proof fn lemma_digits_all(s: Seq<char>, from: nat)
    requires
        from <= s.len(),
    ensures
        forall|k: int| from <= k < digits_end(s, from) ==> is_digit(#[trigger] s[k]),
        digits_end(s, from) <= s.len(),
    decreases s.len() - from,
{
    if from < s.len() && is_digit(s[from as int]) {
        lemma_digits_all(s, from + 1);
    }
}



/// Ten to the power `n`.
pub open spec fn pow10(n: nat) -> int
    decreases n,
{
    if n == 0 { 1 } else { 10 * pow10((n - 1) as nat) }
}

/// Powers of ten are positive.
pub proof fn lemma_pow10_positive(n: nat)
    ensures
        pow10(n) >= 1,
    decreases n,
{
    if n > 0 {
        lemma_pow10_positive((n - 1) as nat);
    }
}

/// Powers of ten grow with the exponent.
pub proof fn lemma_pow10_monotone(m: nat, n: nat)
    requires
        m <= n,
    ensures
        pow10(m) <= pow10(n),
    decreases n - m,
{
    if m < n {
        lemma_pow10_monotone(m, (n - 1) as nat);
        lemma_pow10_positive((n - 1) as nat);
    }
}

/// `10^(m + n) == 10^m * 10^n`.
pub proof fn lemma_pow10_add(m: nat, n: nat)
    ensures
        pow10(m + n) == pow10(m) * pow10(n),
    decreases n,
{
    if n > 0 {
        lemma_pow10_add(m, (n - 1) as nat);
        assert(pow10(m + n) == 10 * pow10((m + n - 1) as nat));
        let a = pow10(m);
        let b = pow10((n - 1) as nat);
        assert(10 * (a * b) == a * (10 * b)) by (nonlinear_arith);
    }
}

/// The digits of `[from, to)` read as the digits of `[from, mid)` shifted left, then those of
/// `[mid, to)`.
pub proof fn lemma_digits_split(s: Seq<char>, from: int, mid: int, to: int)
    requires
        from <= mid <= to,
    ensures
        digits_value(s, from, to) == digits_value(s, from, mid) * pow10((to - mid) as nat)
            + digits_value(s, mid, to),
    decreases to - mid,
{
    if to > mid {
        lemma_digits_split(s, from, mid, to - 1);
        let a = digits_value(s, from, mid);
        let p = pow10((to - 1 - mid) as nat);
        let b = digits_value(s, mid, to - 1);
        let d = s[to - 1] as int - '0' as int;
        assert(pow10((to - mid) as nat) == 10 * p);
        assert((a * p + b) * 10 + d == a * (10 * p) + (b * 10 + d)) by (nonlinear_arith);
    }
}

/// Digits of `[from, to)` stand for less than `10^(to - from)`.
pub proof fn lemma_digits_upper(s: Seq<char>, from: int, to: int)
    requires
        0 <= from <= to <= s.len(),
        forall|k: int| from <= k < to ==> is_digit(#[trigger] s[k]),
    ensures
        0 <= digits_value(s, from, to) < pow10((to - from) as nat),
    decreases to - from,
{
    if to > from {
        lemma_digits_upper(s, from, to - 1);
        assert(is_digit(s[to - 1]));
        assert(pow10((to - from) as nat) == 10 * pow10((to - 1 - from) as nat));
    }
}

/// Equal digits in two places stand for equal values.
pub proof fn lemma_digits_shift(s: Seq<char>, from: int, u: Seq<char>, from2: int, n: nat)
    requires
        forall|k: int| 0 <= k < n ==> #[trigger] s[from + k] == u[from2 + k],
    ensures
        digits_value(s, from, from + n) == digits_value(u, from2, from2 + n),
    decreases n,
{
    if n > 0 {
        lemma_digits_shift(s, from, u, from2, (n - 1) as nat);
        assert(s[from + (n - 1)] == u[from2 + (n - 1)]);
    }
}

/// Zeros stand for zero.
pub proof fn lemma_digits_zeros(s: Seq<char>, from: int, to: int)
    requires
        forall|k: int| from <= k < to ==> #[trigger] s[k] == '0',
    ensures
        digits_value(s, from, to) == 0,
    decreases to - from,
{
    if to > from {
        lemma_digits_zeros(s, from, to - 1);
    }
}

/// Digits that do not start with zero stand for at least `10^(to - from - 1)`.
pub proof fn lemma_digits_lower(s: Seq<char>, from: int, to: int)
    requires
        0 <= from < to <= s.len(),
        forall|k: int| from <= k < to ==> is_digit(#[trigger] s[k]),
        s[from] != '0',
    ensures
        digits_value(s, from, to) >= pow10((to - from - 1) as nat),
{
    lemma_digits_split(s, from, from + 1, to);
    lemma_digits_upper(s, from + 1, to);
    assert(is_digit(s[from]));
    assert(digits_value(s, from, from) == 0);
    assert(digits_value(s, from, from + 1) == s[from] as int - '0' as int);
    let p = pow10((to - from - 1) as nat);
    let a = digits_value(s, from, from + 1);
    assert(a >= 1);
    assert(a * p >= p) by (nonlinear_arith)
        requires
            a >= 1,
            p >= 0,
    ;
}

/// Digits of equal length compare as their first difference does.
pub proof fn lemma_digits_less(s: Seq<char>, from: int, u: Seq<char>, from2: int, n: nat, j: nat)
    requires
        0 <= from,
        from + n <= s.len(),
        0 <= from2,
        from2 + n <= u.len(),
        j < n,
        forall|k: int| from <= k < from + n ==> is_digit(#[trigger] s[k]),
        forall|k: int| from2 <= k < from2 + n ==> is_digit(#[trigger] u[k]),
        forall|k: int| 0 <= k < j ==> #[trigger] s[from + k] == u[from2 + k],
        s[from + j] < u[from2 + j],
    ensures
        digits_value(s, from, from + n) < digits_value(u, from2, from2 + n),
{
    let m = (n - j - 1) as nat;
    lemma_digits_split(s, from, from + j, from + n);
    lemma_digits_split(u, from2, from2 + j, from2 + n);
    lemma_digits_shift(s, from, u, from2, j);
    lemma_digits_split(s, from + j, from + j + 1, from + n);
    lemma_digits_split(u, from2 + j, from2 + j + 1, from2 + n);
    lemma_digits_upper(s, from + j + 1, from + n);
    lemma_digits_upper(u, from2 + j + 1, from2 + n);
    assert(is_digit(s[from + j]));
    assert(is_digit(u[from2 + j]));
    let a = digits_value(s, from + j, from + j + 1);
    let b = digits_value(u, from2 + j, from2 + j + 1);
    assert(digits_value(s, from + j, from + j) == 0);
    assert(digits_value(u, from2 + j, from2 + j) == 0);
    assert(a == s[from + j] as int - '0' as int);
    assert(b == u[from2 + j] as int - '0' as int);
    let p = pow10(m);
    let ra = digits_value(s, from + j + 1, from + n);
    let rb = digits_value(u, from2 + j + 1, from2 + n);
    assert(a * p + ra < b * p + rb) by (nonlinear_arith)
        requires
            a + 1 <= b,
            0 <= ra < p,
            0 <= rb,
    ;
    let q = pow10((n - j) as nat);
    let h = digits_value(s, from, from + j);
    assert(h == digits_value(u, from2, from2 + j));
    assert(h * q + (a * p + ra) < h * q + (b * p + rb));
}

} // verus!
