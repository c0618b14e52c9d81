//! `std/number`: conversions between numbers and their decimal text.
use vstd::prelude::*;
use crate::error::{NativeResult, RuntimeError};
use crate::heap::Heap;
use crate::span::Span;
use crate::text::{chars_of, int_decimal, i64_to_string};
use crate::value::{values_view, Value, ValueV};
use crate::decimal::{digits_end, digits_value, is_digit, lemma_digits_all, lemma_digits_grow, lemma_digits_value_bounds};
use crate::native::support::{
    argument_error, arity_check, category_message, expect_arity, located, plain_model,
};

verus! {

/// The module name used in diagnostics.
pub open spec fn module() -> Seq<char> {
    "std/number"@
}

/// The syntactic category of a number's text.
#[derive(Clone, Copy, Debug, PartialEq, Eq)]
pub enum NumberSyntax {
    /// Not a number: `nil`.
    Malformed,
    /// An optional sign and digits only.
    Integer,
    /// Digits with a fraction, an exponent, or both.
    Float,
}

/// Whether position `i` of `s` holds `a` or `b`.
pub open spec fn holds(s: Seq<char>, i: nat, a: char, b: char) -> bool {
    i < s.len() && (s[i as int] == a || s[i as int] == b)
}

/// The category of the exponent part starting at `p`, the first position after the mantissa,
/// for a mantissa that had a fraction when `fraction` is set.
pub open spec fn exponent_syntax(s: Seq<char>, p: nat, fraction: bool) -> NumberSyntax {
    if holds(s, p, 'e', 'E') {
        let sign = if holds(s, p + 1, '+', '-') { p + 2 } else { p + 1 };
        let end = digits_end(s, sign);
        if end == sign || end != s.len() {
            NumberSyntax::Malformed
        } else {
            NumberSyntax::Float
        }
    } else if p != s.len() {
        NumberSyntax::Malformed
    } else if fraction {
        NumberSyntax::Float
    } else {
        NumberSyntax::Integer
    }
}

/// The category of a number's text: an optional sign, one or more digits, optionally a point
/// and one or more digits, optionally `e` or `E`, an optional sign and one or more digits, and
/// nothing else.
pub open spec fn number_syntax(s: Seq<char>) -> NumberSyntax {
    let start: nat = if holds(s, 0, '+', '-') { 1 } else { 0 };
    let whole = digits_end(s, start);
    if whole == start {
        NumberSyntax::Malformed
    } else if holds(s, whole, '.', '.') {
        let fraction = digits_end(s, whole + 1);
        if fraction == whole + 1 {
            NumberSyntax::Malformed
        } else {
            exponent_syntax(s, fraction, true)
        }
    } else {
        exponent_syntax(s, whole, false)
    }
}

/// The integer an integer-syntax text denotes: its sign applied to its digits.
pub open spec fn integer_text_value(s: Seq<char>) -> int {
    if s.len() > 0 && s[0] == '-' {
        -digits_value(s, 1, s.len() as int)
    } else if s.len() > 0 && s[0] == '+' {
        digits_value(s, 1, s.len() as int)
    } else {
        digits_value(s, 0, s.len() as int)
    }
}

/// What `from_string` yields before any float is converted: a finished value, or the text of a
/// float literal still to be converted to the nearest binary64 number (`nil` if that is not
/// finite).
#[derive(Clone, Debug)]
pub enum FromString {
    Ready(Value),
    Float(String),
}

/// The model of [`FromString`].
pub enum FromStringV {
    Ready(ValueV),
    Float(Seq<char>),
}

/// `from_string(text)` up to float conversion: `nil` for malformed text and for integers
/// outside `i64`.
pub open spec fn from_string_spec(args: Seq<ValueV>) -> Result<FromStringV, Seq<char>> {
    match arity_check(args, 1, module(), "from_string"@, false) {
        Some(m) => Err(m),
        None => match args[0] {
            ValueV::String(s) => Ok(
                match number_syntax(s) {
                    NumberSyntax::Malformed => FromStringV::Ready(ValueV::Nil),
                    NumberSyntax::Float => FromStringV::Float(s),
                    NumberSyntax::Integer => {
                        let n = integer_text_value(s);
                        if i64::MIN <= n <= i64::MAX {
                            FromStringV::Ready(ValueV::Int(n as i64))
                        } else {
                            FromStringV::Ready(ValueV::Nil)
                        }
                    },
                },
            ),
            v => Err(category_message(module(), "from_string"@, " "@ + "text"@ + " must be a string, got "@, v)),
        },
    }
}

/// `to_string(value)`: the decimal text of an integer, the canonical text of a float.
pub open spec fn to_string_spec(args: Seq<ValueV>) -> Result<ValueV, Seq<char>> {
    match arity_check(args, 1, module(), "to_string"@, false) {
        Some(m) => Err(m),
        None => match args[0] {
            ValueV::Int(n) => Ok(ValueV::String(int_decimal(n as int))),
            ValueV::Float(_, text) => Ok(ValueV::String(text)),
            v => Err(category_message(
                module(),
                "to_string"@,
                " "@ + "value"@ + " must be an integer or float, got "@,
                v,
            )),
        },
    }
}

fn is_digit_char(c: char) -> (r: bool)
    ensures
        r == is_digit(c),
{
    '0' <= c && c <= '9'
}

fn holds_at(s: &[char], i: usize, a: char, b: char) -> (r: bool)
    ensures
        r == holds(s@, i as nat, a, b),
{
    i < s.len() && (s[i] == a || s[i] == b)
}

fn skip_digits(s: &[char], from: usize) -> (end: usize)
    requires
        from <= s@.len(),
    ensures
        end == digits_end(s@, from as nat),
        from <= end <= s@.len(),
{
    let mut i = from;
    while i < s.len() && is_digit_char(s[i])
        invariant
            from <= i <= s@.len(),
            digits_end(s@, from as nat) == digits_end(s@, i as nat),
        decreases s@.len() - i,
    {
        i = i + 1;
    }
    i
}

fn exponent_category(s: &[char], p: usize, fraction: bool) -> (r: NumberSyntax)
    requires
        p <= s@.len(),
    ensures
        r == exponent_syntax(s@, p as nat, fraction),
{
    let n = s.len();
    if holds_at(s, p, 'e', 'E') {
        let sign = if holds_at(s, p + 1, '+', '-') { p + 2 } else { p + 1 };
        let end = skip_digits(s, sign);
        if end == sign || end != s.len() {
            NumberSyntax::Malformed
        } else {
            NumberSyntax::Float
        }
    } else if p != s.len() {
        NumberSyntax::Malformed
    } else if fraction {
        NumberSyntax::Float
    } else {
        NumberSyntax::Integer
    }
}

/// The category of a number's text.
pub fn classify_number(s: &[char]) -> (r: NumberSyntax)
    ensures
        r == number_syntax(s@),
{
    let n = s.len();
    let start: usize = if holds_at(s, 0, '+', '-') { 1 } else { 0 };
    let whole = skip_digits(s, start);
    if whole == start {
        NumberSyntax::Malformed
    } else if holds_at(s, whole, '.', '.') {
        let fraction = skip_digits(s, whole + 1);
        if fraction == whole + 1 {
            NumberSyntax::Malformed
        } else {
            exponent_category(s, fraction, true)
        }
    } else {
        exponent_category(s, whole, false)
    }
}

/// The value of an integer-syntax text, or `None` outside `i64`.
fn integer_value(s: &[char]) -> (r: Option<i64>)
    requires
        number_syntax(s@) == NumberSyntax::Integer,
    ensures
        match r {
            Some(n) => n == integer_text_value(s@),
            None => !(i64::MIN <= integer_text_value(s@) <= i64::MAX),
        },
{
    let negative = s.len() > 0 && s[0] == '-';
    let start: usize = if holds_at(s, 0, '+', '-') { 1 } else { 0 };
    let end = skip_digits(s, start);
    proof {
        assert(end == s@.len());
        lemma_digits_all(s@, start as nat);
    }
    // Accumulate toward the sign, so that `i64::MIN` is reachable.
    let mut value: i64 = 0;
    let mut i = start;
    while i < end
        invariant
            start <= i <= end == s@.len(),
            negative == (s@.len() > 0 && s@[0] == '-'),
            start == (if holds(s@, 0, '+', '-') { 1nat } else { 0nat }),
            forall|k: int| start <= k < end ==> is_digit(#[trigger] s@[k]),
            value == if negative { -digits_value(s@, start as int, i as int) } else { digits_value(
                s@,
                start as int,
                i as int,
            ) },
        decreases end - i,
    {
        assert(is_digit(s@[i as int]));
        let digit = (s[i] as u32 - '0' as u32) as i64;
        proof {
            lemma_digits_value_bounds(s@, start as int, i as int);
            lemma_digits_value_bounds(s@, start as int, end as int);
        }
        let next: i128 = if negative {
            value as i128 * 10 - digit as i128
        } else {
            value as i128 * 10 + digit as i128
        };
        if next < i64::MIN as i128 || next > i64::MAX as i128 {
            proof {
                assert(digits_value(s@, start as int, i + 1) == digits_value(s@, start as int, i as int) * 10 + digit);
                lemma_digits_grow(s@, start as int, i + 1, end as int);
                assert(negative ==> start == 1);
                assert(end == s@.len());
            }
            return None;
        }
        value = next as i64;
        i = i + 1;
    }
    Some(value)
}

/// `std/number.from_string`, up to float conversion.
pub fn number_from_string(heap: &mut Heap, args: &[Value], span: Span) -> (r: Result<
    FromString,
    RuntimeError,
>)
    ensures
        match from_string_spec(values_view(args@)) {
            Ok(FromStringV::Ready(v)) => r matches Ok(FromString::Ready(w)) && w@ == v,
            Ok(FromStringV::Float(t)) => r matches Ok(FromString::Float(u)) && u@ == t,
            Err(m) => r matches Err(e) && e.span == span && e.message@ == m,
        },
        final(heap)@ == old(heap)@,
{
    expect_arity(args, 1, "std/number", "from_string", false, span)?;
    let text = match &args[0] {
        Value::String(s) => s,
        other => {
            return Err(argument_error("std/number", "from_string", "text", " must be a string, got ", other, span));
        },
    };
    let chars = chars_of(text.as_str());
    match classify_number(chars.as_slice()) {
        NumberSyntax::Malformed => Ok(FromString::Ready(Value::Nil)),
        NumberSyntax::Float => Ok(FromString::Float(text.clone())),
        NumberSyntax::Integer => match integer_value(chars.as_slice()) {
            Some(n) => Ok(FromString::Ready(Value::Int(n))),
            None => Ok(FromString::Ready(Value::Nil)),
        },
    }
}

/// `std/number.to_string`.
pub fn number_to_string(heap: &mut Heap, args: &[Value], span: Span) -> (r: NativeResult)
    ensures
        plain_model(r) == to_string_spec(values_view(args@)),
        !(r matches Ok(Err(_))),
        located(r, span),
        final(heap)@ == old(heap)@,
{
    expect_arity(args, 1, "std/number", "to_string", false, span)?;
    match &args[0] {
        Value::Int(n) => Ok(Ok(Value::String(i64_to_string(*n)))),
        Value::Float(f) => Ok(Ok(Value::String(f.text.clone()))),
        other => Err(argument_error(
            "std/number",
            "to_string",
            "value",
            " must be an integer or float, got ",
            other,
            span,
        )),
    }
}

} // verus!
