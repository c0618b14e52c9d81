//! The language's unary and binary operators. Integer arithmetic is checked, division rounds
//! toward negative infinity, and remainders take the sign of the divisor. Numbers are ordered
//! exactly, floats by their bits. Binary64 arithmetic is handed back to the caller as a
//! [`FloatOperation`].
use vstd::prelude::*;
use crate::error::RuntimeError;
use crate::float_bits::{bits_are_zero, compare_floats, compare_int_float, float_float_order, int_float_order, is_finite, is_zero, lemma_int_float_equal};
use crate::keys::{primitive_equal, values_equal};
use vstd::arithmetic::div_mod::{lemma_fundamental_div_mod, lemma_fundamental_div_mod_converse, lemma_mod_pos_bound, lemma_div_is_ordered_by_denominator};
use crate::span::Span;
use crate::text::push_str;
use crate::value::{kind_name_of, FloatRepr, Value, ValueV};

verus! {

/// A unary operator.
#[derive(Clone, Copy, Debug, PartialEq, Eq, Structural)]
pub enum UnaryOp {
    Negate,
    Not,
}

/// A binary operator.
#[derive(Clone, Copy, Debug, PartialEq, Eq, Structural)]
pub enum BinaryOp {
    Add,
    Subtract,
    Multiply,
    Divide,
    FloorDivide,
    Remainder,
    Concatenate,
    Equal,
    NotEqual,
    Less,
    LessEqual,
    Greater,
    GreaterEqual,
    And,
    Or,
}

/// Work on binary64 numbers that the caller performs: negating a float, or applying a binary
/// arithmetic operator to two numbers at least one of which is a float (both integers, for `/`).
#[derive(Clone, Debug)]
pub enum FloatOperation {
    Negate(FloatRepr),
    Binary(BinaryOp, Value, Value),
}

/// What an operator produced: a value, a division by zero (which the interpreter raises), a
/// hard error, or binary64 work for the caller.
#[derive(Clone, Debug)]
pub enum Outcome {
    Value(Value),
    DivisionByZero,
    Error(RuntimeError),
    Float(FloatOperation),
}

/// The model of an outcome.
pub enum OutcomeV {
    Value(ValueV),
    DivisionByZero,
    Error(Seq<char>),
    FloatNegate(u64),
    FloatBinary(BinaryOp, ValueV, ValueV),
}

/// The model of an outcome.
pub open spec fn outcome_view(o: Outcome) -> OutcomeV {
    match o {
        Outcome::Value(v) => OutcomeV::Value(v@),
        Outcome::DivisionByZero => OutcomeV::DivisionByZero,
        Outcome::Error(e) => OutcomeV::Error(e.message@),
        Outcome::Float(FloatOperation::Negate(f)) => OutcomeV::FloatNegate(f.bits),
        Outcome::Float(FloatOperation::Binary(op, a, b)) => OutcomeV::FloatBinary(op, a@, b@),
    }
}

/// Whether every hard error of an outcome is located at `span`.
pub open spec fn outcome_at(o: Outcome, span: Span) -> bool {
    o matches Outcome::Error(e) ==> e.span == span
}

/// The symbol of an arithmetic or comparison operator in diagnostics.
pub open spec fn symbol(op: BinaryOp) -> Seq<char> {
    match op {
        BinaryOp::Add => "+"@,
        BinaryOp::Subtract => "-"@,
        BinaryOp::Multiply => "*"@,
        BinaryOp::Divide => "/"@,
        BinaryOp::FloorDivide => "//"@,
        BinaryOp::Remainder => "%"@,
        BinaryOp::Less => "<"@,
        BinaryOp::LessEqual => "<="@,
        BinaryOp::Greater => ">"@,
        BinaryOp::GreaterEqual => ">="@,
        _ => ""@,
    }
}

/// Quotient rounded toward negative infinity.
pub open spec fn floor_div(a: int, b: int) -> int {
    if b > 0 { a / b } else { (-a) / (-b) }
}

/// Remainder taking the sign of the divisor.
pub open spec fn floor_mod(a: int, b: int) -> int {
    a - b * floor_div(a, b)
}

/// The absolute value.
pub open spec fn abs_int(a: int) -> int {
    if a < 0 { -a } else { a }
}

/// The result of an operator on two integers.
pub open spec fn int_binary(op: BinaryOp, a: i64, b: i64) -> OutcomeV {
    let (x, y) = (a as int, b as int);
    let checked = |v: int, message: Seq<char>| if i64::MIN <= v <= i64::MAX {
        OutcomeV::Value(ValueV::Int(v as i64))
    } else {
        OutcomeV::Error(message)
    };
    match op {
        BinaryOp::Add => checked(x + y, "integer overflow"@),
        BinaryOp::Subtract => checked(x - y, "integer overflow"@),
        BinaryOp::Multiply => checked(x * y, "integer overflow"@),
        BinaryOp::Divide => if y == 0 {
            OutcomeV::DivisionByZero
        } else {
            OutcomeV::FloatBinary(op, ValueV::Int(a), ValueV::Int(b))
        },
        BinaryOp::FloorDivide => if y == 0 {
            OutcomeV::DivisionByZero
        } else {
            checked(floor_div(x, y), "integer overflow in floor division"@)
        },
        BinaryOp::Remainder => if y == 0 {
            OutcomeV::DivisionByZero
        } else {
            OutcomeV::Value(ValueV::Int(floor_mod(x, y) as i64))
        },
        BinaryOp::Less => OutcomeV::Value(ValueV::Bool(x < y)),
        BinaryOp::LessEqual => OutcomeV::Value(ValueV::Bool(x <= y)),
        BinaryOp::Greater => OutcomeV::Value(ValueV::Bool(x > y)),
        BinaryOp::GreaterEqual => OutcomeV::Value(ValueV::Bool(x >= y)),
        _ => OutcomeV::Value(ValueV::Nil),
    }
}

/// Whether a value is an integer or a float.
pub open spec fn is_number(v: ValueV) -> bool {
    v is Int || v is Float
}

/// Whether a number is zero: the integer zero or a float zero of either sign.
pub open spec fn is_zero_number(v: ValueV) -> bool {
    match v {
        ValueV::Int(n) => n == 0,
        ValueV::Float(bits, _) => is_zero(bits),
        _ => false,
    }
}

/// Whether an operator orders its operands: `<`, `<=`, `>` or `>=`.
pub open spec fn is_ordering(op: BinaryOp) -> bool {
    op is Less || op is LessEqual || op is Greater || op is GreaterEqual
}

/// The diagnostic for operands that are not both numbers, or that cannot be ordered.
pub open spec fn numeric_operands_message(op: BinaryOp, a: ValueV, b: ValueV) -> Seq<char> {
    "operator `"@ + symbol(op) + "` requires numeric operands, got "@ + kind_name_of(a) + " and "@
        + kind_name_of(b)
}

/// The result of an ordering operator given the sign of `a - b`, or `None` when the numbers
/// cannot be ordered.
pub open spec fn ordering_outcome(op: BinaryOp, a: ValueV, b: ValueV, sign: Option<int>) -> OutcomeV {
    match sign {
        None => OutcomeV::Error(numeric_operands_message(op, a, b)),
        Some(c) => OutcomeV::Value(ValueV::Bool(
            if op is Less { c < 0 } else if op is LessEqual { c <= 0 } else if op is Greater { c > 0 } else { c >= 0 },
        )),
    }
}

/// The result of a binary operator other than `and`, `or` and `<>`.
pub open spec fn binary_spec(op: BinaryOp, a: ValueV, b: ValueV) -> OutcomeV {
    match op {
        BinaryOp::Equal => match primitive_equal(a, b) {
            Ok(e) => OutcomeV::Value(ValueV::Bool(e)),
            Err(m) => OutcomeV::Error(m),
        },
        BinaryOp::NotEqual => match primitive_equal(a, b) {
            Ok(e) => OutcomeV::Value(ValueV::Bool(!e)),
            Err(m) => OutcomeV::Error(m),
        },
        _ => if !is_number(a) || !is_number(b) {
            OutcomeV::Error(numeric_operands_message(op, a, b))
        } else {
            match (a, b) {
                (ValueV::Int(x), ValueV::Int(y)) => int_binary(op, x, y),
                (ValueV::Int(x), ValueV::Float(bits, _)) if is_ordering(op) => ordering_outcome(
                    op,
                    a,
                    b,
                    int_float_order(x as int, bits),
                ),
                (ValueV::Float(bits, _), ValueV::Int(y)) if is_ordering(op) => ordering_outcome(
                    op,
                    a,
                    b,
                    match int_float_order(y as int, bits) {
                        Some(c) => Some(-c),
                        None => None,
                    },
                ),
                (ValueV::Float(x, _), ValueV::Float(y, _)) if is_ordering(op) => ordering_outcome(
                    op,
                    a,
                    b,
                    float_float_order(x, y),
                ),
                _ => if (op is Divide || op is FloorDivide || op is Remainder) && is_zero_number(
                    b,
                ) {
                    OutcomeV::DivisionByZero
                } else {
                    OutcomeV::FloatBinary(op, a, b)
                },
            }
        },
    }
}

/// The result of a unary operator.
pub open spec fn unary_spec(op: UnaryOp, v: ValueV) -> OutcomeV {
    match (op, v) {
        (UnaryOp::Negate, ValueV::Int(n)) => if n == i64::MIN {
            OutcomeV::Error("integer overflow in negation"@)
        } else {
            OutcomeV::Value(ValueV::Int(-n as i64))
        },
        (UnaryOp::Negate, ValueV::Float(bits, _)) => OutcomeV::FloatNegate(bits),
        (UnaryOp::Not, ValueV::Bool(b)) => OutcomeV::Value(ValueV::Bool(!b)),
        (UnaryOp::Negate, _) => OutcomeV::Error("unary `-` requires a number, got "@ + kind_name_of(v)),
        (UnaryOp::Not, _) => OutcomeV::Error("`not` requires a boolean, got "@ + kind_name_of(v)),
    }
}

/// Applies a unary operator.
pub fn evaluate_unary(op: UnaryOp, value: &Value, span: Span) -> (r: Outcome)
    ensures
        outcome_view(r) == unary_spec(op, value@),
        outcome_at(r, span),
{
    match (op, value) {
        (UnaryOp::Negate, Value::Int(n)) => if *n == i64::MIN {
            Outcome::Error(RuntimeError::new(span, "integer overflow in negation".to_string()))
        } else {
            Outcome::Value(Value::Int(-*n))
        },
        (UnaryOp::Negate, Value::Float(f)) => Outcome::Float(FloatOperation::Negate(f.copy())),
        (UnaryOp::Not, Value::Bool(b)) => Outcome::Value(Value::Bool(!*b)),
        (UnaryOp::Negate, other) => {
            let mut message = "unary `-` requires a number, got ".to_string();
            push_str(&mut message, other.kind_name());
            Outcome::Error(RuntimeError::new(span, message))
        },
        (UnaryOp::Not, other) => {
            let mut message = "`not` requires a boolean, got ".to_string();
            push_str(&mut message, other.kind_name());
            Outcome::Error(RuntimeError::new(span, message))
        },
    }
}

/// The spelling of an operator in diagnostics.
fn operator_symbol(op: BinaryOp) -> (s: &'static str)
    ensures
        s@ == symbol(op),
{
    match op {
        BinaryOp::Add => "+",
        BinaryOp::Subtract => "-",
        BinaryOp::Multiply => "*",
        BinaryOp::Divide => "/",
        BinaryOp::FloorDivide => "//",
        BinaryOp::Remainder => "%",
        BinaryOp::Less => "<",
        BinaryOp::LessEqual => "<=",
        BinaryOp::Greater => ">",
        BinaryOp::GreaterEqual => ">=",
        _ => "",
    }
}

/// The magnitude of an integer.
fn magnitude(a: i64) -> (m: u64)
    ensures
        m as int == abs_int(a as int),
{
    if a == i64::MIN {
        0x8000000000000000u64
    } else if a < 0 {
        (-a) as u64
    } else {
        a as u64
    }
}

/// `a // b` and `a % b` from the quotient and remainder of the magnitudes.
pub open spec fn floor_by_magnitude(a: int, b: int) -> (int, int) {
    let q = abs_int(a) / abs_int(b);
    let r = abs_int(a) % abs_int(b);
    let signed_r = if a < 0 { -r } else { r };
    if (a < 0) == (b < 0) || r == 0 {
        (if (a < 0) == (b < 0) { q } else { -q }, signed_r)
    } else {
        (-q - 1, signed_r + b)
    }
}

/// Dividing a negated number by a positive divisor.
proof fn lemma_negated_division(m: int, d: int)
    requires
        m >= 0,
        d > 0,
    ensures
        (-m) / d == if m % d == 0 { -(m / d) } else { -(m / d) - 1 },
{
    let q = m / d;
    let r = m % d;
    lemma_fundamental_div_mod(m, d);
    lemma_mod_pos_bound(m, d);
    if r == 0 {
        assert(-m == (-q) * d + 0) by (nonlinear_arith)
            requires
                m == d * q + r,
                r == 0,
        ;
        lemma_fundamental_div_mod_converse(-m, d, -q, 0);
    } else {
        assert(-m == (-q - 1) * d + (d - r)) by (nonlinear_arith)
            requires
                m == d * q + r,
        ;
        lemma_fundamental_div_mod_converse(-m, d, -q - 1, d - r);
    }
}

/// The quotient and remainder of the magnitudes give the floored quotient and remainder.
proof fn lemma_floor_by_magnitude(a: int, b: int)
    requires
        b != 0,
    ensures
        floor_div(a, b) == floor_by_magnitude(a, b).0,
        floor_mod(a, b) == floor_by_magnitude(a, b).1,
{
    let (ua, ub) = (abs_int(a), abs_int(b));
    let q = ua / ub;
    let r = ua % ub;
    lemma_fundamental_div_mod(ua, ub);
    lemma_mod_pos_bound(ua, ub);
    if b > 0 {
        if a < 0 {
            lemma_negated_division(ua, ub);
        }
    } else if a > 0 {
        lemma_negated_division(ua, ub);
    }
    let f = floor_div(a, b);
    assert(ua == ub * q + r);
    if a >= 0 && b > 0 {
        assert(a - b * f == r);
    } else if a < 0 && b < 0 {
        assert(a - b * f == -r) by (nonlinear_arith)
            requires
                a == -ua,
                b == -ub,
                f == q,
                ua == ub * q + r,
        ;
    } else if r == 0 {
        if a < 0 {
            assert(a - b * f == 0) by (nonlinear_arith)
                requires
                    a == -ua,
                    b == ub,
                    f == -q,
                    ua == ub * q,
            ;
        } else {
            assert(a - b * f == 0) by (nonlinear_arith)
                requires
                    a == ua,
                    b == -ub,
                    f == -q,
                    ua == ub * q,
            ;
        }
    } else if a < 0 {
        assert(a - b * f == -r + b) by (nonlinear_arith)
            requires
                a == -ua,
                b == ub,
                f == -q - 1,
                ua == ub * q + r,
        ;
    } else {
        assert(a - b * f == r + b) by (nonlinear_arith)
            requires
                a == ua,
                b == -ub,
                f == -q - 1,
                ua == ub * q + r,
        ;
    }
}

/// The floored quotient and remainder: the divisor times the quotient plus the remainder gives
/// back the dividend, and the remainder lies strictly between zero and the divisor (zero
/// included) on the divisor's side.
pub proof fn lemma_floor_division(a: int, b: int)
    requires
        b != 0,
    ensures
        a == b * floor_div(a, b) + floor_mod(a, b),
        b > 0 ==> 0 <= floor_mod(a, b) < b,
        b < 0 ==> b < floor_mod(a, b) <= 0,
{
    lemma_floor_by_magnitude(a, b);
    lemma_mod_pos_bound(abs_int(a), abs_int(b));
}

/// `a // b` rounded toward negative infinity, when it fits.
fn checked_floor_div(a: i64, b: i64) -> (r: Option<i64>)
    requires
        b != 0,
    ensures
        match r {
            Some(q) => q == floor_div(a as int, b as int),
            None => !(i64::MIN <= floor_div(a as int, b as int) <= i64::MAX),
        },
{
    proof {
        lemma_floor_by_magnitude(a as int, b as int);
    }
    let ua = magnitude(a);
    let ub = magnitude(b);
    let q = ua / ub;
    let r = ua % ub;
    if (a < 0) == (b < 0) {
        if q > 0x7fffffffffffffffu64 {
            None
        } else {
            Some(q as i64)
        }
    } else if r == 0 {
        Some((0i128 - q as i128) as i64)
    } else {
        proof {
            assert(q < 0x8000000000000000u64) by (nonlinear_arith)
                requires
                    ub >= 2 || r == 0,
                    r != 0,
                    ua <= 0x8000000000000000u64,
                    q == ua / ub,
                    ub > 0,
            {
                lemma_div_is_ordered_by_denominator(ua as int, 2, ub as int);
            }
        }
        Some((0i128 - q as i128 - 1) as i64)
    }
}

/// `a % b` with the sign of `b`.
fn floor_remainder(a: i64, b: i64) -> (r: i64)
    requires
        b != 0,
    ensures
        r == floor_mod(a as int, b as int),
{
    proof {
        lemma_floor_by_magnitude(a as int, b as int);
        lemma_floor_division(a as int, b as int);
    }
    let ua = magnitude(a);
    let ub = magnitude(b);
    let r = ua % ub;
    let signed: i128 = if a < 0 { 0i128 - r as i128 } else { r as i128 };
    if (a < 0) == (b < 0) || r == 0 {
        signed as i64
    } else {
        (signed + b as i128) as i64
    }
}

/// An arithmetic or comparison operator on two integers.
fn integer_binary(op: BinaryOp, a: i64, b: i64, span: Span) -> (r: Outcome)
    requires
        !(op is And || op is Or || op is Concatenate || op is Equal || op is NotEqual),
    ensures
        outcome_view(r) == int_binary(op, a, b),
        outcome_at(r, span),
{
    match op {
        BinaryOp::Add => match a.checked_add(b) {
            Some(v) => Outcome::Value(Value::Int(v)),
            None => Outcome::Error(RuntimeError::new(span, "integer overflow".to_string())),
        },
        BinaryOp::Subtract => match a.checked_sub(b) {
            Some(v) => Outcome::Value(Value::Int(v)),
            None => Outcome::Error(RuntimeError::new(span, "integer overflow".to_string())),
        },
        BinaryOp::Multiply => match a.checked_mul(b) {
            Some(v) => Outcome::Value(Value::Int(v)),
            None => Outcome::Error(RuntimeError::new(span, "integer overflow".to_string())),
        },
        BinaryOp::Divide => if b == 0 {
            Outcome::DivisionByZero
        } else {
            Outcome::Float(FloatOperation::Binary(op, Value::Int(a), Value::Int(b)))
        },
        BinaryOp::FloorDivide => if b == 0 {
            Outcome::DivisionByZero
        } else {
            match checked_floor_div(a, b) {
                Some(q) => Outcome::Value(Value::Int(q)),
                None => Outcome::Error(
                    RuntimeError::new(span, "integer overflow in floor division".to_string()),
                ),
            }
        },
        BinaryOp::Remainder => if b == 0 {
            Outcome::DivisionByZero
        } else {
            Outcome::Value(Value::Int(floor_remainder(a, b)))
        },
        BinaryOp::Less => Outcome::Value(Value::Bool(a < b)),
        BinaryOp::LessEqual => Outcome::Value(Value::Bool(a <= b)),
        BinaryOp::Greater => Outcome::Value(Value::Bool(a > b)),
        _ => Outcome::Value(Value::Bool(a >= b)),
    }
}

/// The hard error for operands that are not both numbers, or that cannot be ordered.
fn numeric_operands_error(op: BinaryOp, left: &Value, right: &Value, span: Span) -> (e: RuntimeError)
    ensures
        e.span == span,
        e.message@ == numeric_operands_message(op, left@, right@),
{
    let mut message = "operator `".to_string();
    push_str(&mut message, operator_symbol(op));
    push_str(&mut message, "` requires numeric operands, got ");
    push_str(&mut message, left.kind_name());
    push_str(&mut message, " and ");
    push_str(&mut message, right.kind_name());
    proof {
        reveal_strlit("operator `");
    }
    RuntimeError::new(span, message)
}

/// Applies a binary operator other than the short-circuiting `and` and `or`, and other than
/// `<>`, which has no evaluation rule.
pub fn evaluate_binary(op: BinaryOp, left: &Value, right: &Value, span: Span) -> (r: Outcome)
    requires
        !(op is And || op is Or || op is Concatenate),
    ensures
        outcome_view(r) == binary_spec(op, left@, right@),
        outcome_at(r, span),
{
    if matches!(op, BinaryOp::Equal) || matches!(op, BinaryOp::NotEqual) {
        return match values_equal(left, right, span) {
            Ok(e) => Outcome::Value(Value::Bool(if matches!(op, BinaryOp::Equal) { e } else { !e })),
            Err(error) => Outcome::Error(error),
        };
    }
    let left_number = matches!(left, Value::Int(_)) || matches!(left, Value::Float(_));
    let right_number = matches!(right, Value::Int(_)) || matches!(right, Value::Float(_));
    if !left_number || !right_number {
        return Outcome::Error(numeric_operands_error(op, left, right, span));
    }
    let ordering = matches!(op, BinaryOp::Less) || matches!(op, BinaryOp::LessEqual)
        || matches!(op, BinaryOp::Greater) || matches!(op, BinaryOp::GreaterEqual);
    if ordering {
        let sign: Option<i8> = match (left, right) {
            (Value::Int(x), Value::Float(f)) => compare_int_float(*x, f.bits),
            (Value::Float(f), Value::Int(y)) => match compare_int_float(*y, f.bits) {
                Some(c) => Some(-c),
                None => None,
            },
            (Value::Float(x), Value::Float(y)) => compare_floats(x.bits, y.bits),
            _ => Some(0),
        };
        let integers = matches!(left, Value::Int(_)) && matches!(right, Value::Int(_));
        if !integers {
            return match sign {
                None => Outcome::Error(numeric_operands_error(op, left, right, span)),
                Some(c) => Outcome::Value(Value::Bool(
                    if matches!(op, BinaryOp::Less) { c < 0 } else if matches!(op, BinaryOp::LessEqual) {
                        c <= 0
                    } else if matches!(op, BinaryOp::Greater) { c > 0 } else { c >= 0 },
                )),
            };
        }
    }
    match (left, right) {
        (Value::Int(x), Value::Int(y)) => integer_binary(op, *x, *y, span),
        _ => {
            let zero = match right {
                Value::Int(n) => *n == 0,
                Value::Float(f) => bits_are_zero(f.bits),
                _ => false,
            };
            let divides = matches!(op, BinaryOp::Divide) || matches!(op, BinaryOp::FloorDivide)
                || matches!(op, BinaryOp::Remainder);
            if divides && zero {
                Outcome::DivisionByZero
            } else {
                Outcome::Float(FloatOperation::Binary(op, left.copy(), right.copy()))
            }
        },
    }
}

/// The spelling of `and` or `or`.
pub open spec fn boolean_symbol(op: BinaryOp) -> Seq<char> {
    if op is And { "and"@ } else { "or"@ }
}

/// The diagnostic for a non-boolean operand of `and` or `or`.
pub open spec fn boolean_operand_message(op: BinaryOp, v: ValueV) -> Seq<char> {
    "operator `"@ + boolean_symbol(op) + "` requires boolean operands, got "@ + kind_name_of(v)
}

/// A boolean operand of `and` or `or`, or the hard error for another value, located at `span`.
pub fn boolean_operand(op: BinaryOp, value: &Value, span: Span) -> (r: Result<bool, RuntimeError>)
    requires
        op is And || op is Or,
    ensures
        match value@ {
            ValueV::Bool(b) => r == Ok::<bool, RuntimeError>(b),
            _ => r is Err && r->Err_0.span == span && r->Err_0.message@ == boolean_operand_message(op, value@),
        },
{
    match value {
        Value::Bool(b) => Ok(*b),
        other => {
            let mut message = "operator `".to_string();
            push_str(&mut message, if matches!(op, BinaryOp::And) { "and" } else { "or" });
            push_str(&mut message, "` requires boolean operands, got ");
            push_str(&mut message, other.kind_name());
            Err(RuntimeError::new(span, message))
        },
    }
}

/// What the left operand of `and` or `or` decides: the result, when it settles it (`false` for
/// `and`, `true` for `or`), or `None` when the right operand is to be evaluated.
pub fn short_circuit(op: BinaryOp, left: &Value, span: Span) -> (r: Result<Option<bool>, RuntimeError>)
    requires
        op is And || op is Or,
    ensures
        match left@ {
            ValueV::Bool(b) => r == Ok::<Option<bool>, RuntimeError>(
                if (op is And && !b) || (op is Or && b) { Some(b) } else { None },
            ),
            _ => r is Err && r->Err_0.span == span && r->Err_0.message@ == boolean_operand_message(op, left@),
        },
{
    let b = boolean_operand(op, left, span)?;
    if (matches!(op, BinaryOp::And) && !b) || (matches!(op, BinaryOp::Or) && b) {
        Ok(Some(b))
    } else {
        Ok(None)
    }
}

/// `and` and `or` on booleans: the left operand settles the result exactly when it is `false`
/// for `and` or `true` for `or`, and otherwise the result is the right operand; either way it is
/// the boolean conjunction or disjunction.
pub proof fn lemma_short_circuit(op: BinaryOp, a: bool, b: bool)
    requires
        op is And || op is Or,
    ensures
        ((op is And && !a) || (op is Or && a)) ==> a == (if op is And { a && b } else { a || b }),
        !((op is And && !a) || (op is Or && a)) ==> b == (if op is And { a && b } else { a || b }),
{
}

/// The truth value of an `if` condition or a `case` or `catch` guard (`what` names which), or
/// the hard error for a value that is not a boolean, located at `span`.
pub fn boolean_condition(what: &str, value: &Value, span: Span) -> (r: Result<bool, RuntimeError>)
    ensures
        match value@ {
            ValueV::Bool(b) => r == Ok::<bool, RuntimeError>(b),
            _ => r is Err && r->Err_0.span == span && r->Err_0.message@ == what@
                + " must be boolean, got "@ + kind_name_of(value@),
        },
{
    match value {
        Value::Bool(b) => Ok(*b),
        other => {
            let mut message = String::new();
            push_str(&mut message, what);
            push_str(&mut message, " must be boolean, got ");
            push_str(&mut message, other.kind_name());
            Err(RuntimeError::new(span, message))
        },
    }
}

/// For an integer and a finite float, on either side, `==` holds exactly when neither `<` nor `>`
/// does, and `<` and `>` never hold together.
pub proof fn lemma_equality_agrees_with_order(i: i64, bits: u64, text: Seq<char>, float_first: bool)
    requires
        is_finite(bits),
    ensures
        ({
            let (a, b) = if float_first {
                (ValueV::Float(bits, text), ValueV::Int(i))
            } else {
                (ValueV::Int(i), ValueV::Float(bits, text))
            };
            &&& binary_spec(BinaryOp::Equal, a, b) matches OutcomeV::Value(ValueV::Bool(eq))
            &&& binary_spec(BinaryOp::Less, a, b) matches OutcomeV::Value(ValueV::Bool(lt))
            &&& binary_spec(BinaryOp::Greater, a, b) matches OutcomeV::Value(ValueV::Bool(gt))
            &&& (eq <==> !lt && !gt)
            &&& !(lt && gt)
        }),
{
    lemma_int_float_equal(i as int, bits);
}

/// `not` is boolean negation: on a boolean it gives the other boolean, and applying it twice
/// gives the boolean back.
pub proof fn lemma_not_negates(b: bool)
    ensures
        unary_spec(UnaryOp::Not, ValueV::Bool(b)) matches OutcomeV::Value(ValueV::Bool(c)) && c != b,
        unary_spec(UnaryOp::Not, ValueV::Bool(b)) == OutcomeV::Value(ValueV::Bool(!b)),
        ({
            let once = unary_spec(UnaryOp::Not, ValueV::Bool(b))->Value_0;
            unary_spec(UnaryOp::Not, once) == OutcomeV::Value(ValueV::Bool(b))
        }),
{
}

/// `==` and `!=` on booleans are boolean equality and its negation.
pub proof fn lemma_boolean_equality_operators(x: bool, y: bool)
    ensures
        binary_spec(BinaryOp::Equal, ValueV::Bool(x), ValueV::Bool(y)) == OutcomeV::Value(ValueV::Bool(x == y)),
        binary_spec(BinaryOp::NotEqual, ValueV::Bool(x), ValueV::Bool(y)) == OutcomeV::Value(ValueV::Bool(x != y)),
{
    crate::keys::lemma_boolean_equality(x, y);
}

/// Negating an integer gives the integer that adds up with it to zero, except for the smallest
/// `i64`, whose negation overflows and is a hard error.
pub proof fn lemma_negation(n: i64)
    ensures
        n != i64::MIN ==> (unary_spec(UnaryOp::Negate, ValueV::Int(n)) matches OutcomeV::Value(ValueV::Int(k))
            && k + n == 0),
        n == i64::MIN ==> unary_spec(UnaryOp::Negate, ValueV::Int(n)) is Error,
{
}

/// The order operators on integers: `<` holds exactly when `>` holds with the operands swapped,
/// `<=` exactly when `>` does not, `>=` exactly when `<` does not, `<` is never true both ways,
/// and `==` holds exactly when neither `<` nor `>` does.
pub proof fn lemma_integer_order(x: i64, y: i64)
    ensures
        binary_spec(BinaryOp::Less, ValueV::Int(x), ValueV::Int(y)) matches OutcomeV::Value(ValueV::Bool(lt))
            && binary_spec(BinaryOp::Greater, ValueV::Int(y), ValueV::Int(x)) == OutcomeV::Value(ValueV::Bool(lt))
            && binary_spec(BinaryOp::GreaterEqual, ValueV::Int(x), ValueV::Int(y)) == OutcomeV::Value(ValueV::Bool(!lt))
            && binary_spec(BinaryOp::LessEqual, ValueV::Int(y), ValueV::Int(x)) == OutcomeV::Value(ValueV::Bool(!lt))
            && (binary_spec(BinaryOp::Less, ValueV::Int(y), ValueV::Int(x)) matches OutcomeV::Value(ValueV::Bool(gt))
                && !(lt && gt)
                && (binary_spec(BinaryOp::Equal, ValueV::Int(x), ValueV::Int(y)) == OutcomeV::Value(ValueV::Bool(!lt && !gt)))),
        x < i64::MAX ==> binary_spec(BinaryOp::Less, ValueV::Int(x), ValueV::Int((x + 1) as i64))
            == OutcomeV::Value(ValueV::Bool(true)),
{
}

/// Integer `+`, `-` and `*` give the exact result when it fits in an `i64`, and a hard error
/// otherwise; `-` undoes `+`.
pub proof fn lemma_integer_arithmetic(x: i64, y: i64)
    ensures
        binary_spec(BinaryOp::Add, ValueV::Int(x), ValueV::Int(y)) matches OutcomeV::Value(ValueV::Int(s))
            ==> s - y == x,
        binary_spec(BinaryOp::Subtract, ValueV::Int(x), ValueV::Int(y)) matches OutcomeV::Value(ValueV::Int(d))
            ==> d + y == x,
        binary_spec(BinaryOp::Multiply, ValueV::Int(x), ValueV::Int(y)) matches OutcomeV::Value(ValueV::Int(p))
            ==> p == x * y,
        i64::MIN <= x + y <= i64::MAX <==> binary_spec(BinaryOp::Add, ValueV::Int(x), ValueV::Int(y)) is Value,
        i64::MIN <= x - y <= i64::MAX <==> binary_spec(BinaryOp::Subtract, ValueV::Int(x), ValueV::Int(y)) is Value,
        i64::MIN <= x * y <= i64::MAX <==> binary_spec(BinaryOp::Multiply, ValueV::Int(x), ValueV::Int(y)) is Value,
{
}

} // verus!
