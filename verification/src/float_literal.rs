//! Whether a decimal float literal denotes a finite binary64 number.
//!
//! Round-to-nearest-even carries a value to infinity exactly when it is at least
//! `2^1024 - 2^970`, the midpoint between the largest finite binary64 value and `2^1024`
//! (the tie goes to the even significand, which is `2^1024`). The check below compares the
//! literal's exact decimal value against that threshold, digit by digit.
use vstd::prelude::*;
use crate::decimal::{
    digits_end, digits_value, is_digit, lemma_digits_all, lemma_digits_less, lemma_digits_lower,
    lemma_digits_grow, lemma_digits_shift, lemma_digits_split, lemma_digits_upper,
    lemma_digits_zeros, lemma_pow10_add, lemma_pow10_monotone, lemma_pow10_positive, pow10,
};
use crate::text::chars_of;

verus! {

/// `2^1024 - 2^970`, the least positive value that rounds to infinity in binary64.
pub open spec fn overflow_threshold() -> int {
    179769313486231580793728971405303415079934132710037826936173778980444968292764750946649017977587207096330286416692887910946555547851940402630657488671505820681908902000708383676273854845817711531764475730270069855571366959622842914819860834936475292719074168444365510704342711559699508093042880177904174497792int
}

/// Where the whole-number digits of a literal end.
pub open spec fn whole_end(t: Seq<char>) -> nat {
    digits_end(t, 0)
}

/// Whether the literal has a decimal point after its whole-number digits.
pub open spec fn has_point(t: Seq<char>) -> bool {
    whole_end(t) < t.len() && t[whole_end(t) as int] == '.'
}

/// Where the digits of the mantissa (whole part and fraction) end.
pub open spec fn mantissa_end(t: Seq<char>) -> nat {
    if has_point(t) { digits_end(t, whole_end(t) + 1) } else { whole_end(t) }
}

/// The number of fraction digits.
pub open spec fn fraction_len(t: Seq<char>) -> nat {
    if has_point(t) { (mantissa_end(t) - whole_end(t) - 1) as nat } else { 0 }
}

/// The mantissa's digits with the point left out.
pub open spec fn mantissa_digits(t: Seq<char>) -> Seq<char> {
    if has_point(t) {
        t.subrange(0, whole_end(t) as int) + t.subrange(whole_end(t) + 1int, mantissa_end(t) as int)
    } else {
        t.subrange(0, whole_end(t) as int)
    }
}

/// Where the exponent's digits start, after `e` or `E` and an optional sign.
pub open spec fn exponent_start(t: Seq<char>) -> nat {
    let b = mantissa_end(t);
    if b + 1 < t.len() && (t[b + 1int] == '+' || t[b + 1int] == '-') { b + 2 } else { b + 1 }
}

/// The literal's power-of-ten exponent, zero when it has none.
pub open spec fn exponent_value(t: Seq<char>) -> int {
    let b = mantissa_end(t);
    if b < t.len() {
        let x = digits_value(t, exponent_start(t) as int, t.len() as int);
        if t[b + 1int] == '-' { -x } else { x }
    } else {
        0
    }
}

/// Whether `t` has the shape of a float literal: digits, optionally a point and digits,
/// optionally `e` or `E`, an optional sign and digits, and nothing else.
pub open spec fn is_float_literal(t: Seq<char>) -> bool {
    let a = whole_end(t);
    let b = mantissa_end(t);
    &&& a >= 1
    &&& has_point(t) ==> b > a + 1
    &&& b == t.len() || ((t[b as int] == 'e' || t[b as int] == 'E') && exponent_start(t) < t.len()
        && digits_end(t, exponent_start(t)) == t.len())
}

/// Whether `m * 10^x` is below the overflow threshold.
pub open spec fn scaled_below(m: int, x: int) -> bool {
    if x >= 0 {
        m * pow10(x as nat) < overflow_threshold()
    } else {
        m < overflow_threshold() * pow10((-x) as nat)
    }
}

/// Whether the value a float literal spells is below the overflow threshold, so that it reads
/// as a finite binary64 number.
pub open spec fn float_literal_finite(t: Seq<char>) -> bool {
    scaled_below(
        digits_value(mantissa_digits(t), 0, mantissa_digits(t).len() as int),
        exponent_value(t) - fraction_len(t),
    )
}

/// The threshold's decimal digits.
proof fn lemma_threshold_digits(t: Seq<char>)
    requires
        t == "179769313486231580793728971405303415079934132710037826936173778980444968292764750946649017977587207096330286416692887910946555547851940402630657488671505820681908902000708383676273854845817711531764475730270069855571366959622842914819860834936475292719074168444365510704342711559699508093042880177904174497792"@,
    ensures
        t.len() == 309,
        t[0] == '1',
        t[308] == '2',
        forall|k: int| 0 <= k < 309 ==> is_digit(#[trigger] t[k]),
        digits_value(t, 0, 309) == overflow_threshold(),
{
    reveal_strlit("179769313486231580793728971405303415079934132710037826936173778980444968292764750946649017977587207096330286416692887910946555547851940402630657488671505820681908902000708383676273854845817711531764475730270069855571366959622842914819860834936475292719074168444365510704342711559699508093042880177904174497792");
    reveal_with_fuel(digits_value, 27);
    assert(digits_value(t, 0, 25) == 1797693134862315807937289int);
    assert(digits_value(t, 0, 50) == 17976931348623158079372897140530341507993413271003int);
    assert(digits_value(t, 0, 75) == 179769313486231580793728971405303415079934132710037826936173778980444968292int);
    assert(digits_value(t, 0, 100) == 1797693134862315807937289714053034150799341327100378269361737789804449682927647509466490179775872070int);
    assert(digits_value(t, 0, 125) == 17976931348623158079372897140530341507993413271003782693617377898044496829276475094664901797758720709633028641669288791094655int);
    assert(digits_value(t, 0, 150) == 179769313486231580793728971405303415079934132710037826936173778980444968292764750946649017977587207096330286416692887910946555547851940402630657488671int);
    assert(digits_value(t, 0, 175) == 1797693134862315807937289714053034150799341327100378269361737789804449682927647509466490179775872070963302864166928879109465555478519404026306574886715058206819089020007083836int);
    assert(digits_value(t, 0, 200) == 17976931348623158079372897140530341507993413271003782693617377898044496829276475094664901797758720709633028641669288791094655554785194040263065748867150582068190890200070838367627385484581771153176447int);
    assert(digits_value(t, 0, 225) == 179769313486231580793728971405303415079934132710037826936173778980444968292764750946649017977587207096330286416692887910946555547851940402630657488671505820681908902000708383676273854845817711531764475730270069855571366959622int);
    assert(digits_value(t, 0, 250) == 1797693134862315807937289714053034150799341327100378269361737789804449682927647509466490179775872070963302864166928879109465555478519404026306574886715058206819089020007083836762738548458177115317644757302700698555713669596228429148198608349364752927int);
    assert(digits_value(t, 0, 275) == 17976931348623158079372897140530341507993413271003782693617377898044496829276475094664901797758720709633028641669288791094655554785194040263065748867150582068190890200070838367627385484581771153176447573027006985557136695962284291481986083493647529271907416844436551070434271int);
    assert(digits_value(t, 0, 300) == 179769313486231580793728971405303415079934132710037826936173778980444968292764750946649017977587207096330286416692887910946555547851940402630657488671505820681908902000708383676273854845817711531764475730270069855571366959622842914819860834936475292719074168444365510704342711559699508093042880177904int);
    assert(digits_value(t, 0, 309) == overflow_threshold());
}

/// A value with fewer than 309 digits before the point is below the threshold.
proof fn lemma_small_scale(m: int, d: nat, x: int)
    requires
        0 <= m < pow10(d),
        d + x <= 308,
        pow10(308) <= overflow_threshold(),
    ensures
        scaled_below(m, x),
{
    if x >= 0 {
        lemma_pow10_add(d, x as nat);
        lemma_pow10_monotone((d + x) as nat, 308);
        lemma_pow10_positive(x as nat);
        let p = pow10(x as nat);
        assert(m * p < pow10(d) * p) by (nonlinear_arith)
            requires
                m < pow10(d),
                p >= 1,
        ;
    } else {
        let y = (-x) as nat;
        lemma_pow10_positive(y);
        if d + x >= 0 {
            lemma_pow10_add((d + x) as nat, y);
            lemma_pow10_monotone((d + x) as nat, 308);
            let p = pow10((d + x) as nat);
            let q = pow10(y);
            assert(p * q <= overflow_threshold() * q) by (nonlinear_arith)
                requires
                    p <= overflow_threshold(),
                    q >= 1,
            ;
        } else {
            lemma_pow10_monotone(d, y);
            lemma_pow10_positive(308);
            let q = pow10(y);
            assert(q <= overflow_threshold() * q) by (nonlinear_arith)
                requires
                    overflow_threshold() >= 1,
                    q >= 1,
            ;
        }
    }
}

/// A value with more than 309 digits before the point is not below the threshold.
proof fn lemma_large_scale(m: int, d: nat, x: int)
    requires
        d >= 1,
        m >= pow10((d - 1) as nat),
        d + x >= 310,
        overflow_threshold() < pow10(309),
    ensures
        !scaled_below(m, x),
{
    if x >= 0 {
        lemma_pow10_add((d - 1) as nat, x as nat);
        lemma_pow10_monotone(309, (d - 1 + x) as nat);
        lemma_pow10_positive(x as nat);
        let p = pow10(x as nat);
        assert(m * p >= pow10((d - 1) as nat) * p) by (nonlinear_arith)
            requires
                m >= pow10((d - 1) as nat),
                p >= 1,
        ;
    } else {
        let y = (-x) as nat;
        lemma_pow10_add((d - 1 + x) as nat, y);
        lemma_pow10_monotone(309, (d - 1 + x) as nat);
        lemma_pow10_positive(y);
        let p = pow10((d - 1 + x) as nat);
        let q = pow10(y);
        assert(overflow_threshold() * q < p * q) by (nonlinear_arith)
            requires
                overflow_threshold() < p,
                q >= 1,
        ;
    }
}

/// The first digit of `t` from `from` on that is not a digit, found by scanning.
fn skip_digits(t: &[char], from: usize) -> (end: usize)
    requires
        from <= t@.len(),
    ensures
        end == digits_end(t@, from as nat),
        from <= end <= t@.len(),
{
    let mut i = from;
    while i < t.len() && '0' <= t[i] && t[i] <= '9'
        invariant
            from <= i <= t@.len(),
            digits_end(t@, from as nat) == digits_end(t@, i as nat),
        decreases t@.len() - i,
    {
        i = i + 1;
    }
    i
}

/// Whether a float literal denotes a finite binary64 number.
pub fn float_literal_is_finite(t: &[char]) -> (r: bool)
    requires
        is_float_literal(t@),
    ensures
        r == float_literal_finite(t@),
{
    let n = t.len();
    let a = skip_digits(t, 0);
    let point = a < n && t[a] == '.';
    let b = if point { skip_digits(t, a + 1) } else { a };
    let f: usize = if point { b - a - 1 } else { 0 };
    proof {
        lemma_digits_all(t@, 0);
        if point {
            lemma_digits_all(t@, (a + 1) as nat);
        }
    }
    // The mantissa's digits, the point left out.
    let mut digits: Vec<char> = Vec::new();
    let mut i: usize = 0;
    while i < a
        invariant
            i <= a <= n == t@.len(),
            digits@ == t@.subrange(0, i as int),
        decreases a - i,
    {
        digits.push(t[i]);
        i = i + 1;
        assert(digits@ =~= t@.subrange(0, i as int));
    }
    if point {
        let mut i: usize = a + 1;
        while i < b
            invariant
                a + 1 <= i <= b <= n == t@.len(),
                digits@ == t@.subrange(0, a as int) + t@.subrange(a + 1, i as int),
            decreases b - i,
        {
            digits.push(t[i]);
            i = i + 1;
            assert(digits@ =~= t@.subrange(0, a as int) + t@.subrange(a + 1, i as int));
        }
    }
    let ghost mantissa = digits@;
    assert(mantissa =~= mantissa_digits(t@));
    let d_all = digits.len();
    assert(forall|k: int| 0 <= k < d_all ==> is_digit(#[trigger] mantissa[k]));
    // Leading zeros add nothing.
    let mut z: usize = 0;
    while z < d_all && digits[z] == '0'
        invariant
            z <= d_all == mantissa.len(),
            digits@ == mantissa,
            forall|k: int| 0 <= k < z ==> #[trigger] mantissa[k] == '0',
        decreases d_all - z,
    {
        z = z + 1;
    }
    proof {
        lemma_digits_zeros(mantissa, 0, z as int);
        lemma_digits_split(mantissa, 0, z as int, d_all as int);
        lemma_pow10_positive((d_all - z) as nat);
    }
    let ghost m = digits_value(mantissa, 0, d_all as int);
    assert(m == digits_value(mantissa, z as int, d_all as int));
    let d = d_all - z;
    let ghost x = exponent_value(t@) - fraction_len(t@);
    let tdig = chars_of("179769313486231580793728971405303415079934132710037826936173778980444968292764750946649017977587207096330286416692887910946555547851940402630657488671505820681908902000708383676273854845817711531764475730270069855571366959622842914819860834936475292719074168444365510704342711559699508093042880177904174497792");
    proof {
        lemma_threshold_digits(tdig@);
        lemma_digits_lower(tdig@, 0, 309);
        lemma_digits_upper(tdig@, 0, 309);
        lemma_digits_upper(mantissa, z as int, d_all as int);
    }
    if d == 0 {
        proof {
            assert(m == 0);
            if x >= 0 {
                lemma_pow10_positive(x as nat);
                assert(0 * pow10(x as nat) == 0);
            } else {
                lemma_pow10_positive((-x) as nat);
                assert(overflow_threshold() * pow10((-x) as nat) >= 1) by (nonlinear_arith)
                    requires
                        overflow_threshold() >= 1,
                        pow10((-x) as nat) >= 1,
                ;
            }
        }
        return true;
    }
    proof {
        lemma_digits_lower(mantissa, z as int, d_all as int);
    }
    // The exponent, saturated at `cap`: beyond it every digit count is outweighed.
    let cap: i128 = 0x400000000000000000;
    let mut exponent: i128 = 0;
    let mut saturated = false;
    let mut negative = false;
    if b < n {
        let c: usize = if b + 1 < n && (t[b + 1] == '+' || t[b + 1] == '-') { b + 2 } else { b + 1 };
        negative = t[b + 1] == '-';
        proof {
            lemma_digits_all(t@, c as nat);
        }
        let mut i: usize = c;
        while i < n
            invariant
                c <= i <= n == t@.len(),
                forall|k: int| c <= k < n ==> is_digit(#[trigger] t@[k]),
                !saturated ==> exponent == digits_value(t@, c as int, i as int) && exponent <= cap,
                saturated ==> digits_value(t@, c as int, i as int) > cap,
                cap == 0x400000000000000000,
            decreases n - i,
        {
            proof {
                lemma_digits_value_bounds_here(t@, c as int, i as int);
                lemma_digits_grow(t@, c as int, i as int, i + 1);
            }
            if !saturated {
                let digit = (t[i] as u32 - '0' as u32) as i128;
                let next = exponent * 10 + digit;
                if next > cap {
                    saturated = true;
                } else {
                    exponent = next;
                }
            }
            i = i + 1;
        }
        proof {
            assert(exponent_start(t@) == c);
        }
    }
    proof {
        if b < n {
            lemma_digits_grow(t@, exponent_start(t@) as int, exponent_start(t@) as int, n as int);
        }
    }
    if saturated {
        // `d` and `f` are below `2^64`, far from `cap`.
        proof {
            let xv = digits_value(t@, exponent_start(t@) as int, n as int);
            if negative {
                lemma_small_scale(m, d as nat, x);
            } else {
                lemma_large_scale(m, d as nat, x);
            }
        }
        return negative;
    }
    let scale: i128 = if negative { -exponent } else { exponent };
    assert(scale == exponent_value(t@));
    let k: i128 = d as i128 + scale - f as i128;
    if k < 309 {
        proof {
            lemma_small_scale(m, d as nat, x);
        }
        return true;
    }
    if k > 309 {
        proof {
            lemma_large_scale(m, d as nat, x);
        }
        return false;
    }
    // Exactly 309 digits before the point: compare digit by digit.
    let common: usize = if d < 309 { d } else { 309 };
    let mut j: usize = 0;
    while j < common
        invariant
            j <= common <= 309,
            common <= d,
            z + d == d_all == mantissa.len(),
            digits@ == mantissa,
            tdig@.len() == 309,
            tdig@[308] == '2',
            d >= 1,
            d + x == 309,
            common == if d < 309 { d } else { 309 },
            forall|k: int| z <= k < z + d ==> is_digit(#[trigger] mantissa[k]),
            forall|k: int| 0 <= k < 309 ==> is_digit(#[trigger] tdig@[k]),
            digits_value(tdig@, 0, 309) == overflow_threshold(),
            m == digits_value(mantissa, z as int, d_all as int),
            m == digits_value(mantissa, 0, d_all as int),
            mantissa == mantissa_digits(t@),
            x == exponent_value(t@) - fraction_len(t@),
            forall|q: int| 0 <= q < j ==> #[trigger] mantissa[z + q] == tdig@[q],
        decreases common - j,
    {
        if digits[z + j] != tdig[j] {
            let below = digits[z + j] < tdig[j];
            proof {
                lemma_compare_at(mantissa, z as int, d as int, tdig@, j as int, x);
            }
            return below;
        }
        j = j + 1;
    }
    proof {
        lemma_compare_equal(mantissa, z as int, d as int, tdig@, x);
    }
    d < 309
}

/// Digits stand for a value that is never negative.
proof fn lemma_digits_value_bounds_here(s: Seq<char>, from: int, to: int)
    requires
        0 <= from <= to <= s.len(),
        forall|k: int| from <= k < to ==> is_digit(#[trigger] s[k]),
    ensures
        0 <= digits_value(s, from, to),
{
    lemma_digits_upper(s, from, to);
}

/// With 309 digits before the point, the first differing digit from the threshold's decides.
proof fn lemma_compare_at(s: Seq<char>, z: int, d: int, t: Seq<char>, j: int, x: int)
    requires
        0 <= z,
        0 <= j,
        z + d == s.len(),
        d >= 1,
        d + x == 309,
        t.len() == 309,
        j < d,
        j < 309,
        forall|k: int| z <= k < z + d ==> is_digit(#[trigger] s[k]),
        forall|k: int| 0 <= k < 309 ==> is_digit(#[trigger] t[k]),
        digits_value(t, 0, 309) == overflow_threshold(),
        forall|q: int| 0 <= q < j ==> #[trigger] s[z + q] == t[q],
        s[z + j] != t[j],
    ensures
        scaled_below(digits_value(s, z, z + d), x) == (s[z + j] < t[j]),
{
    let n: int = if d < 309 { d } else { 309 };
    let m = digits_value(s, z, z + d);
    let head = digits_value(s, z, z + n);
    let thead = digits_value(t, 0, n);
    if s[z + j] < t[j] {
        lemma_digits_less(s, z, t, 0, n as nat, j as nat);
    } else {
        assert forall|q: int| 0 <= q < j implies #[trigger] t[0 + q] == s[z + q] by {}
        lemma_digits_less(t, 0, s, z, n as nat, j as nat);
    }
    lemma_digits_split(t, 0, n, 309);
    lemma_digits_upper(t, n, 309);
    lemma_digits_upper(t, 0, n);
    lemma_digits_upper(s, z, z + n);
    if d <= 309 {
        // `x >= 0`: compare `head * 10^x` with `thead * 10^x + tail`.
        let p = pow10(x as nat);
        let tail = digits_value(t, n, 309);
        lemma_pow10_positive(x as nat);
        assert(head == m);
        if s[z + j] < t[j] {
            assert(head * p < thead * p + tail) by (nonlinear_arith)
                requires
                    head + 1 <= thead,
                    p >= 1,
                    tail >= 0,
            ;
        } else {
            assert(head * p >= thead * p + tail) by (nonlinear_arith)
                requires
                    thead + 1 <= head,
                    0 <= tail < p,
            ;
        }
    } else {
        // `x < 0`: compare `head * 10^-x + rest` with `threshold * 10^-x`.
        let y = (-x) as nat;
        let p = pow10(y);
        assert(n == 309);
        lemma_digits_split(s, z, z + n, z + d);
        lemma_digits_upper(s, z + n, z + d);
        let rest = digits_value(s, z + n, z + d);
        assert((z + d) - (z + n) == y);
        if s[z + j] < t[j] {
            assert(head * p + rest < thead * p) by (nonlinear_arith)
                requires
                    head + 1 <= thead,
                    0 <= rest < p,
            ;
        } else {
            assert(head * p + rest >= thead * p) by (nonlinear_arith)
                requires
                    thead + 1 <= head,
                    rest >= 0,
                    p >= 1,
            ;
        }
    }
}

/// With 309 digits before the point and the threshold's digits as a prefix, the value is below
/// the threshold exactly when it has fewer significant digits.
proof fn lemma_compare_equal(s: Seq<char>, z: int, d: int, t: Seq<char>, x: int)
    requires
        0 <= z,
        z + d == s.len(),
        d >= 1,
        d + x == 309,
        t.len() == 309,
        t[308] == '2',
        forall|k: int| z <= k < z + d ==> is_digit(#[trigger] s[k]),
        forall|k: int| 0 <= k < 309 ==> is_digit(#[trigger] t[k]),
        digits_value(t, 0, 309) == overflow_threshold(),
        forall|q: int| 0 <= q < (if d < 309 { d } else { 309 }) ==> #[trigger] s[z + q] == t[q],
    ensures
        scaled_below(digits_value(s, z, z + d), x) == (d < 309),
{
    let n: int = if d < 309 { d } else { 309 };
    let m = digits_value(s, z, z + d);
    let head = digits_value(s, z, z + n);
    assert forall|q: int| 0 <= q < n implies #[trigger] s[z + q] == t[0 + q] by {}
    lemma_digits_shift(s, z, t, 0, n as nat);
    let thead = digits_value(t, 0, n);
    assert(head == thead);
    lemma_digits_split(t, 0, n, 309);
    lemma_digits_upper(t, n, 309);
    if d < 309 {
        let p = pow10(x as nat);
        let tail = digits_value(t, n, 309);
        assert(tail >= 2) by {
            lemma_digits_upper(t, n, 308);
            assert(tail == digits_value(t, n, 308) * 10 + (t[308] as int - '0' as int));
        }
        assert(head * p < thead * p + tail);
    } else if d == 309 {
        assert(pow10(0) == 1);
        assert(m * 1 == m);
    } else {
        let y = (-x) as nat;
        let p = pow10(y);
        lemma_digits_split(s, z, z + n, z + d);
        lemma_digits_upper(s, z + n, z + d);
        let rest = digits_value(s, z + n, z + d);
        assert((z + d) - (z + n) == y);
        assert(head * p + rest >= thead * p);
    }
}

} // verus!
