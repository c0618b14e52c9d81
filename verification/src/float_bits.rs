//! Exact reasoning about IEEE-754 binary64 numbers from their bit patterns, used to compare
//! floats with integers and to key maps by numbers.
use vstd::prelude::*;
use vstd::arithmetic::power2::{pow2, lemma_pow2_pos, lemma_pow2_strictly_increases, lemma_pow2_unfold, lemma2_to64, lemma2_to64_rest};
use vstd::bits::{lemma_u64_shl_is_mul, lemma_u64_shr_is_div, lemma_u64_low_bits_mask_is_mod, low_bits_mask};

verus! {

/// The biased exponent field.
pub open spec fn exponent_field(bits: u64) -> u64 {
    (bits >> 52u64) & 0x7ffu64
}

/// The fraction field.
pub open spec fn fraction_field(bits: u64) -> u64 {
    bits & 0xfffffffffffffu64
}

/// Whether the sign bit is set.
pub open spec fn sign_negative(bits: u64) -> bool {
    (bits >> 63u64) == 1
}

/// Whether the bits encode a NaN.
pub open spec fn is_nan(bits: u64) -> bool {
    exponent_field(bits) == 0x7ff && fraction_field(bits) != 0
}

/// Whether the bits encode a finite number.
pub open spec fn is_finite(bits: u64) -> bool {
    exponent_field(bits) != 0x7ff
}

/// Whether the bits encode zero of either sign.
pub open spec fn is_zero(bits: u64) -> bool {
    exponent_field(bits) == 0 && fraction_field(bits) == 0
}

/// The integer a float equals, when it is finite and has no fractional part.
pub open spec fn float_integer(bits: u64) -> Option<int> {
    let e = exponent_field(bits) as int;
    let f = fraction_field(bits) as int;
    if e == 0x7ff {
        None
    } else if e == 0 {
        if f == 0 { Some(0) } else { None }
    } else {
        let m = f + pow2(52) as int;
        let magnitude = if e >= 1075 {
            Some(m * pow2((e - 1075) as nat) as int)
        } else if m % (pow2((1075 - e) as nat) as int) == 0 {
            Some(m / (pow2((1075 - e) as nat) as int))
        } else {
            None::<int>
        };
        match magnitude {
            Some(x) => Some(if sign_negative(bits) { -x } else { x }),
            None => None,
        }
    }
}

/// The `i64` a float equals, when it is finite, has no fractional part and fits.
pub open spec fn float_i64(bits: u64) -> Option<i64> {
    match float_integer(bits) {
        Some(v) => if i64::MIN <= v <= i64::MAX { Some(v as i64) } else { None },
        None => None,
    }
}

/// Two floats compare equal: neither is NaN, and both are zero or both have the same bits.
pub open spec fn floats_equal(a: u64, b: u64) -> bool {
    !is_nan(a) && !is_nan(b) && ((is_zero(a) && is_zero(b)) || a == b)
}

proof fn lemma_fields(bits: u64)
    ensures
        exponent_field(bits) < 2048,
        fraction_field(bits) < 0x10000000000000,
        (fraction_field(bits) | 0x10000000000000u64) == fraction_field(bits) + 0x10000000000000u64,
{
    assert((bits >> 52u64) & 0x7ffu64 < 2048) by (bit_vector);
    assert(bits & 0xfffffffffffffu64 < 0x10000000000000) by (bit_vector);
    assert((bits & 0xfffffffffffffu64) | 0x10000000000000u64 == (bits & 0xfffffffffffffu64)
        + 0x10000000000000u64) by (bit_vector);
}

/// The `i64` a float equals, if any.
pub fn float_to_i64(bits: u64) -> (r: Option<i64>)
    ensures
        r == float_i64(bits),
{
    let e = (bits >> 52u64) & 0x7ffu64;
    let f = bits & 0xfffffffffffffu64;
    let negative = (bits >> 63u64) == 1;
    proof {
        lemma_fields(bits);
        lemma2_to64();
        lemma2_to64_rest();
    }
    if e == 0x7ff {
        return None;
    }
    if e == 0 {
        if f == 0 {
            return Some(0);
        }
        return None;
    }
    let m = f | 0x10000000000000u64;
    assert(m == f + pow2(52));
    if e >= 1075 {
        let shift = e - 1075;
        if shift <= 10 {
            proof {
                if shift < 10 {
                    lemma_pow2_strictly_increases(shift as nat, 10);
                }
                assert(pow2(10) == 1024);
                assert(m * pow2(shift as nat) < 0x20000000000000 * 1024) by (nonlinear_arith)
                    requires
                        m < 0x20000000000000,
                        pow2(shift as nat) <= 1024,
                ;
                lemma_u64_shl_is_mul(m, shift);
            }
            let magnitude = m << shift;
            assert(magnitude < 0x8000000000000000u64);
            if negative {
                return Some(-(magnitude as i64));
            }
            return Some(magnitude as i64);
        }
        proof {
            let v = m * pow2(shift as nat);
            if shift == 11 {
                assert(pow2(11) == 2048);
                assert(m * 2048 >= 0x10000000000000 * 2048) by (nonlinear_arith)
                    requires
                        m >= 0x10000000000000,
                ;
                if m > 0x10000000000000 {
                    assert(m * 2048 > 0x8000000000000000) by (nonlinear_arith)
                        requires
                            m > 0x10000000000000,
                    ;
                }
            } else {
                lemma_pow2_strictly_increases(11, shift as nat);
                assert(pow2(11) == 2048);
                assert(m * pow2(shift as nat) > 0x10000000000000 * 2048) by (nonlinear_arith)
                    requires
                        m >= 0x10000000000000,
                        pow2(shift as nat) > 2048,
                ;
            }
        }
        if shift == 11 && m == 0x10000000000000u64 && negative {
            return Some(i64::MIN);
        }
        return None;
    }
    let shift = 1075 - e;
    if shift >= 53 {
        proof {
            lemma_pow2_strictly_increases(52, shift as nat);
            assert(pow2(53) == 0x20000000000000);
            if shift > 53 {
                lemma_pow2_strictly_increases(53, shift as nat);
            }
            assert((m as int) % (pow2(shift as nat) as int) == m as int) by {
                vstd::arithmetic::div_mod::lemma_small_mod(m as nat, pow2(shift as nat));
            }
        }
        return None;
    }
    proof {
        lemma_u64_low_bits_mask_is_mod(m, shift as nat);
        lemma_u64_shr_is_div(m, shift);
        lemma_pow2_pos(shift as nat);
        lemma_pow2_strictly_increases(shift as nat, 53);
        assert(pow2(53) == 0x20000000000000);
        lemma_u64_shl_is_mul(1, shift);
        vstd::bits::lemma_low_bits_mask_unfold(shift as nat);
    }
    let mask: u64 = (1u64 << shift) - 1;
    assert(mask == low_bits_mask(shift as nat));
    if m & mask != 0 {
        return None;
    }
    let magnitude = m >> shift;
    assert(magnitude <= m);
    if negative {
        Some(-(magnitude as i64))
    } else {
        Some(magnitude as i64)
    }
}


/// Whether the bits encode a NaN.
pub fn bits_are_nan(bits: u64) -> (b: bool)
    ensures
        b == is_nan(bits),
{
    ((bits >> 52u64) & 0x7ffu64) == 0x7ff && (bits & 0xfffffffffffffu64) != 0
}

/// Whether the bits encode a finite number.
pub fn bits_are_finite(bits: u64) -> (b: bool)
    ensures
        b == is_finite(bits),
{
    ((bits >> 52u64) & 0x7ffu64) != 0x7ff
}

/// Whether the bits encode zero of either sign.
pub fn bits_are_zero(bits: u64) -> (b: bool)
    ensures
        b == is_zero(bits),
{
    ((bits >> 52u64) & 0x7ffu64) == 0 && (bits & 0xfffffffffffffu64) == 0
}

/// Whether two floats compare equal.
pub fn bits_equal(a: u64, b: u64) -> (r: bool)
    ensures
        r == floats_equal(a, b),
{
    if bits_are_nan(a) || bits_are_nan(b) {
        return false;
    }
    let a_zero = ((a >> 52u64) & 0x7ffu64) == 0 && (a & 0xfffffffffffffu64) == 0;
    let b_zero = ((b >> 52u64) & 0x7ffu64) == 0 && (b & 0xfffffffffffffu64) == 0;
    (a_zero && b_zero) || a == b
}

/// The significand of a finite float's magnitude as an integer: the magnitude is this times
/// `2` to the power [`magnitude_power`].
pub open spec fn magnitude_significand(bits: u64) -> int {
    if exponent_field(bits) == 0 {
        fraction_field(bits) as int
    } else {
        fraction_field(bits) + pow2(52) as int
    }
}

/// The power of two that scales [`magnitude_significand`].
pub open spec fn magnitude_power(bits: u64) -> int {
    (if exponent_field(bits) == 0 { 1 } else { exponent_field(bits) as int }) - 1075
}

/// The sign (`-1`, `0` or `1`) of `i - x` for an integer `i` and the finite float `x`, computed
/// exactly: both sides are scaled by a power of two until they are integers.
pub open spec fn int_float_sign(i: int, bits: u64) -> int {
    let m = if sign_negative(bits) { -magnitude_significand(bits) } else { magnitude_significand(bits) };
    let p = magnitude_power(bits);
    let d = if p >= 0 { i - m * pow2(p as nat) } else { i * pow2((-p) as nat) - m };
    if d < 0 { -1 } else if d == 0 { 0 } else { 1 }
}

/// How an integer compares with a float: `None` when the float is not finite, else the sign of
/// their difference.
pub open spec fn int_float_order(i: int, bits: u64) -> Option<int> {
    if is_finite(bits) { Some(int_float_sign(i, bits)) } else { None }
}

/// The sign of `a * 2^k - b` from the quotient and remainder of `b` by `2^k`.
proof fn lemma_scaled_sign(a: int, q: int, r: int, t: int)
    requires
        t > 0,
        0 <= r < t,
    ensures
        a < q ==> a * t - (q * t + r) < 0,
        a > q ==> a * t - (q * t + r) > 0,
        a == q ==> a * t - (q * t + r) == -r,
        a + q <= -1 ==> a * t + (q * t + r) < 0,
        a + q >= 0 && r > 0 ==> a * t + (q * t + r) > 0,
        a + q >= 1 ==> a * t + (q * t + r) > 0,
        a + q == 0 ==> a * t + (q * t + r) == r,
{
    assert(a < q ==> a * t - (q * t + r) < 0) by (nonlinear_arith)
        requires t > 0, 0 <= r < t;
    assert(a > q ==> a * t - (q * t + r) > 0) by (nonlinear_arith)
        requires t > 0, 0 <= r < t;
    assert(a == q ==> a * t - (q * t + r) == -r) by (nonlinear_arith);
    assert(a + q <= -1 ==> a * t + (q * t + r) < 0) by (nonlinear_arith)
        requires t > 0, 0 <= r < t;
    assert(a + q >= 0 && r > 0 ==> a * t + (q * t + r) > 0) by (nonlinear_arith)
        requires t > 0, 0 <= r < t;
    assert(a + q >= 1 ==> a * t + (q * t + r) > 0) by (nonlinear_arith)
        requires t > 0, 0 <= r < t;
    assert(a + q == 0 ==> a * t + (q * t + r) == r) by (nonlinear_arith);
}

/// How an integer compares with a float: `None` when the float is not finite, `Some(-1)` when
/// the integer is smaller, `Some(0)` when they are equal and `Some(1)` when it is larger.
pub fn compare_int_float(integer: i64, bits: u64) -> (r: Option<i8>)
    ensures
        r matches Some(c) ==> int_float_order(integer as int, bits) == Some(c as int),
        r is None <==> int_float_order(integer as int, bits) is None,
{
    if !bits_are_finite(bits) {
        return None;
    }
    let e = (bits >> 52u64) & 0x7ffu64;
    let f = bits & 0xfffffffffffffu64;
    let negative = (bits >> 63u64) == 1;
    proof {
        lemma_fields(bits);
        lemma2_to64();
        lemma2_to64_rest();
    }
    let m: u64 = if e == 0 { f } else { f | 0x10000000000000u64 };
    assert(m == magnitude_significand(bits));
    assert(m < 0x20000000000000);
    let ghost mant: int = if negative { -(m as int) } else { m as int };
    let ghost i = integer as int;
    if e >= 1075 {
        let shift = e - 1075;
        assert(magnitude_power(bits) == shift);
        if shift >= 11 {
            proof {
                lemma_pow2_pos(shift as nat);
                if shift > 11 {
                    lemma_pow2_strictly_increases(11, shift as nat);
                }
                assert(pow2(11) == 2048);
                assert(m * pow2(shift as nat) >= 0x10000000000000 * 2048) by (nonlinear_arith)
                    requires
                        m >= 0x10000000000000,
                        pow2(shift as nat) >= 2048,
                ;
                if shift > 11 || m > 0x10000000000000 {
                    if shift > 12 {
                        lemma_pow2_strictly_increases(12, shift as nat);
                    }
                    assert(pow2(12) == 4096);
                    assert(pow2(shift as nat) >= 4096 || m > 0x10000000000000);
                    assert(m * pow2(shift as nat) > 0x8000000000000000) by (nonlinear_arith)
                        requires
                            m >= 0x10000000000000,
                            pow2(shift as nat) >= 2048,
                            pow2(shift as nat) >= 4096 || m > 0x10000000000000,
                    ;
                }
                if negative {
                    assert(mant * pow2(shift as nat) == -(m * pow2(shift as nat))) by (nonlinear_arith)
                        requires mant == -(m as int);
                } else {
                    assert(mant * pow2(shift as nat) == m * pow2(shift as nat));
                }
            }
            if !negative {
                return Some(-1);
            }
            if shift == 11 && m == 0x10000000000000u64 {
                return Some(if integer == i64::MIN { 0 } else { 1 });
            }
            return Some(1);
        }
        proof {
            if shift < 10 {
                lemma_pow2_strictly_increases(shift as nat, 10);
            }
            assert(pow2(10) == 1024);
            assert(m * pow2(shift as nat) < 0x20000000000000 * 1024) by (nonlinear_arith)
                requires
                    m < 0x20000000000000,
                    pow2(shift as nat) <= 1024,
            ;
            lemma_u64_shl_is_mul(m, shift);
        }
        let magnitude = m << shift;
        assert(magnitude < 0x8000000000000000u64);
        let x: i64 = if negative { -(magnitude as i64) } else { magnitude as i64 };
        proof {
            if negative {
                assert(mant * pow2(shift as nat) == -(m * pow2(shift as nat))) by (nonlinear_arith)
                    requires mant == -(m as int);
            }
            assert(x == mant * pow2(shift as nat));
        }
        return Some(if integer < x { -1 } else if integer == x { 0 } else { 1 });
    }
    let k: u64 = 1075 - (if e == 0 { 1 } else { e });
    assert(magnitude_power(bits) == -(k as int));
    let q: u64;
    let rem: u64;
    if k >= 53 {
        q = 0;
        rem = m;
        proof {
            lemma_pow2_strictly_increases(52, k as nat);
            assert(pow2(53) == 0x20000000000000);
            if k > 53 {
                lemma_pow2_strictly_increases(53, k as nat);
            }
        }
    } else {
        proof {
            lemma_u64_low_bits_mask_is_mod(m, k as nat);
            lemma_u64_shr_is_div(m, k);
            lemma_pow2_pos(k as nat);
            lemma_u64_shl_is_mul(1, k);
            vstd::bits::lemma_low_bits_mask_unfold(k as nat);
            assert(pow2(53) == 0x20000000000000);
            lemma_pow2_strictly_increases(k as nat, 53);
        }
        let mask: u64 = (1u64 << k) - 1;
        assert(mask == low_bits_mask(k as nat));
        q = m >> k;
        rem = m & mask;
        proof {
            vstd::arithmetic::div_mod::lemma_fundamental_div_mod(m as int, pow2(k as nat) as int);
        }
    }
    let ghost t = pow2(k as nat) as int;
    proof {
        lemma_pow2_pos(k as nat);
        if k < 53 {
            assert(m == t * (m as int / t) + m as int % t);
        }
        assert(m == t * q + rem);
        assert(m == q * t + rem) by (nonlinear_arith)
            requires
                m == t * q + rem,
        ;
        assert(rem < t);
        lemma_scaled_sign(i, q as int, rem as int, t);
        assert((-magnitude_power(bits)) as nat == k as nat);
        assert(sign_negative(bits) == negative);
        let d = i * t - mant;
        assert(int_float_sign(i, bits) == if d < 0 { -1int } else if d == 0 { 0int } else { 1int });
        if negative {
            assert(d == i * t + (q * t + rem));
        } else {
            assert(d == i * t - (q * t + rem));
        }
    }
    assert(q < 0x20000000000000);
    let qi = q as i64;
    if !negative {
        Some(if integer < qi { -1 } else if integer > qi { 1 } else if rem == 0 { 0 } else { -1 })
    } else if rem == 0 {
        Some(if integer < -qi { -1 } else if integer == -qi { 0 } else { 1 })
    } else {
        Some(if integer <= -qi - 1 { -1 } else { 1 })
    }
}

/// The magnitude, times `2^1074`, of the finite float with biased exponent `e` and fraction `f`.
pub open spec fn scaled_magnitude(e: int, f: int) -> int {
    if e == 0 {
        f
    } else {
        (f + pow2(52) as int) * pow2((e - 1) as nat) as int
    }
}

/// A finite float's value times `2^1074`: an integer, so values compare exactly.
pub open spec fn scaled_value(bits: u64) -> int {
    let v = scaled_magnitude(exponent_field(bits) as int, fraction_field(bits) as int);
    if sign_negative(bits) { -v } else { v }
}

/// How two floats compare: `None` when either is not finite, else the sign of their difference.
pub open spec fn float_float_order(a: u64, b: u64) -> Option<int> {
    if is_finite(a) && is_finite(b) {
        let d = scaled_value(a) - scaled_value(b);
        Some(if d < 0 { -1 } else if d == 0 { 0 } else { 1 })
    } else {
        None
    }
}

/// The magnitude grows with the exponent-and-fraction field.
proof fn lemma_magnitude_monotone(e1: int, f1: int, e2: int, f2: int)
    requires
        0 <= e1 < 2047,
        0 <= e2 < 2047,
        0 <= f1 < 0x10000000000000,
        0 <= f2 < 0x10000000000000,
        e1 * 0x10000000000000 + f1 < e2 * 0x10000000000000 + f2,
    ensures
        0 <= scaled_magnitude(e1, f1) < scaled_magnitude(e2, f2),
{
    lemma2_to64();
    lemma2_to64_rest();
    assert(pow2(52) == 0x10000000000000);
    if e1 == e2 {
        if e1 > 0 {
            lemma_pow2_pos((e1 - 1) as nat);
            let p = pow2((e1 - 1) as nat) as int;
            assert((f1 + 0x10000000000000) * p < (f2 + 0x10000000000000) * p) by (nonlinear_arith)
                requires f1 < f2, p > 0;
            assert(0 <= (f1 + 0x10000000000000) * p) by (nonlinear_arith)
                requires f1 >= 0, p > 0;
        }
    } else {
        assert(e1 < e2) by (nonlinear_arith)
            requires
                e1 * 0x10000000000000 + f1 < e2 * 0x10000000000000 + f2,
                0 <= f1 < 0x10000000000000,
                0 <= f2 < 0x10000000000000,
                e1 != e2,
        ;
        // The smaller value stays below 2^52 * 2^e1; the larger is at least 2^52 * 2^(e2 - 1).
        lemma_pow2_pos(e1 as nat);
        let top = 0x10000000000000 * pow2(e1 as nat) as int;
        if e1 == 0 {
            assert(pow2(0) == 1);
        } else {
            lemma_pow2_unfold(e1 as nat);
            lemma_pow2_pos((e1 - 1) as nat);
            let p = pow2((e1 - 1) as nat) as int;
            assert((f1 + 0x10000000000000) * p < top) by (nonlinear_arith)
                requires f1 < 0x10000000000000, p > 0, top == 0x10000000000000 * (2 * p);
            assert(0 <= (f1 + 0x10000000000000) * p) by (nonlinear_arith)
                requires f1 >= 0, p > 0;
        }
        lemma_pow2_pos((e2 - 1) as nat);
        let q = pow2((e2 - 1) as nat) as int;
        if e2 - 1 > e1 {
            lemma_pow2_strictly_increases(e1 as nat, (e2 - 1) as nat);
        }
        assert((f2 + 0x10000000000000) * q >= top) by (nonlinear_arith)
            requires f2 >= 0, q >= pow2(e1 as nat), top == 0x10000000000000 * pow2(e1 as nat);
    }
}

/// How two floats compare: `None` when either is not finite, `Some(-1)` when the first is
/// smaller, `Some(0)` when they are equal (zeros of either sign are equal) and `Some(1)` when it
/// is larger.
pub fn compare_floats(a: u64, b: u64) -> (r: Option<i8>)
    ensures
        r matches Some(c) ==> float_float_order(a, b) == Some(c as int),
        r is None <==> float_float_order(a, b) is None,
{
    if !bits_are_finite(a) || !bits_are_finite(b) {
        return None;
    }
    let ma = a & 0x7fffffffffffffffu64;
    let mb = b & 0x7fffffffffffffffu64;
    proof {
        lemma_fields(a);
        lemma_fields(b);
        assert(a & 0x7fffffffffffffffu64 == ((a >> 52u64) & 0x7ffu64) * 0x10000000000000u64
            + (a & 0xfffffffffffffu64)) by (bit_vector);
        assert(b & 0x7fffffffffffffffu64 == ((b >> 52u64) & 0x7ffu64) * 0x10000000000000u64
            + (b & 0xfffffffffffffu64)) by (bit_vector);
        assert(a & 0x7fffffffffffffffu64 < 0x8000000000000000u64) by (bit_vector);
        assert(b & 0x7fffffffffffffffu64 < 0x8000000000000000u64) by (bit_vector);
        let (ea, fa) = (exponent_field(a) as int, fraction_field(a) as int);
        let (eb, fb) = (exponent_field(b) as int, fraction_field(b) as int);
        if ma < mb {
            lemma_magnitude_monotone(ea, fa, eb, fb);
        } else if mb < ma {
            lemma_magnitude_monotone(eb, fb, ea, fa);
        }
        if ma == 0 {
            assert(ea == 0 && fa == 0);
        }
        if mb == 0 {
            assert(eb == 0 && fb == 0);
        }
        if ma > 0 {
            lemma_magnitude_monotone(0, 0, ea, fa);
        }
        if mb > 0 {
            lemma_magnitude_monotone(0, 0, eb, fb);
        }
    }
    let ka: i64 = if (a >> 63u64) == 1 { -(ma as i64) } else { ma as i64 };
    let kb: i64 = if (b >> 63u64) == 1 { -(mb as i64) } else { mb as i64 };
    Some(if ka < kb { -1 } else if ka == kb { 0 } else { 1 })
}

/// An integer equals a finite float exactly when their difference has sign zero.
pub proof fn lemma_int_float_equal(i: int, bits: u64)
    requires
        is_finite(bits),
    ensures
        (int_float_sign(i, bits) == 0) == (float_integer(bits) == Some(i)),
{
    lemma_fields(bits);
    lemma2_to64();
    lemma2_to64_rest();
    let e = exponent_field(bits) as int;
    let f = fraction_field(bits) as int;
    let m = magnitude_significand(bits);
    let mant = if sign_negative(bits) { -m } else { m };
    if e == 0 {
        lemma_pow2_strictly_increases(52, 1074);
        lemma_pow2_pos(1074);
        let t = pow2(1074) as int;
        assert(magnitude_power(bits) == -1074);
        assert(int_float_sign(i, bits) == 0 <==> i * t == mant);
        if i != 0 {
            assert(i * t >= t || i * t <= -t) by (nonlinear_arith)
                requires i != 0, t > 0;
        }
        if i == 0 {
            assert(i * t == 0) by (nonlinear_arith)
                requires i == 0;
        }
    } else if e >= 1075 {
        let p = (e - 1075) as nat;
        assert(magnitude_power(bits) == e - 1075);
        if sign_negative(bits) {
            assert(mant * pow2(p) == -(m * pow2(p))) by (nonlinear_arith)
                requires mant == -m;
        }
    } else {
        let k = (1075 - e) as nat;
        lemma_pow2_pos(k);
        let t = pow2(k) as int;
        assert(magnitude_power(bits) == -(k as int));
        assert((-magnitude_power(bits)) as nat == k);
        assert(int_float_sign(i, bits) == 0 <==> i * t == mant);
        if m % t == 0 {
            vstd::arithmetic::div_mod::lemma_fundamental_div_mod(m, t);
            let q = m / t;
            assert(m == t * q);
            if sign_negative(bits) {
                assert(i * t == mant <==> i == -q) by (nonlinear_arith)
                    requires mant == -m, m == t * q, t > 0;
            } else {
                assert(i * t == mant <==> i == q) by (nonlinear_arith)
                    requires mant == m, m == t * q, t > 0;
            }
        } else {
            if i * t == mant {
                if sign_negative(bits) {
                    assert(m == (-i) * t) by (nonlinear_arith)
                        requires i * t == mant, mant == -m;
                    vstd::arithmetic::div_mod::lemma_mod_multiples_basic(-i, t);
                } else {
                    assert(m == i * t);
                    vstd::arithmetic::div_mod::lemma_mod_multiples_basic(i, t);
                }
            }
        }
    }
}

} // verus!
