//! Turning values into map keys, and the language's equality of primitive values.
use vstd::prelude::*;
use crate::error::{RuntimeError, RuntimeResult};
use crate::float_bits::{bits_are_finite, bits_are_nan, bits_equal, float_i64, float_integer, float_to_i64, floats_equal, is_finite, is_nan};
use crate::span::Span;
use crate::text::push_str;
use crate::value::{kind_name_of, FloatKey, MapKey, MapKeyV, Value, ValueV};

verus! {

/// The key a value stands for, or the diagnostic when it cannot be a key. Integral floats that
/// fit an `i64` are keyed as integers.
pub open spec fn key_of(v: ValueV) -> Result<MapKeyV, Seq<char>> {
    match v {
        ValueV::Int(n) => Ok(MapKeyV::Int(n)),
        ValueV::Bool(b) => Ok(MapKeyV::Bool(b)),
        ValueV::String(s) => Ok(MapKeyV::String(s)),
        ValueV::Float(bits, text) => if is_nan(bits) {
            Err("map key "@ + "must not be NaN"@)
        } else {
            match float_i64(bits) {
                Some(n) => Ok(MapKeyV::Int(n)),
                None => Ok(MapKeyV::Float(bits, text)),
            }
        },
        _ => Err("map key "@ + "must be an integer, float, string, or boolean, got "@
            + kind_name_of(v)),
    }
}

impl MapKey {
    /// The key a value stands for.
    pub fn from_value(value: &Value, span: Span) -> (r: RuntimeResult<MapKey>)
        ensures
            match key_of(value@) {
                Ok(k) => r is Ok && r->Ok_0@ == k,
                Err(m) => r is Err && r->Err_0.message@ == m && r->Err_0.span == span,
            },
    {
        match value {
            Value::Int(n) => Ok(MapKey::Int(*n)),
            Value::Bool(b) => Ok(MapKey::Bool(*b)),
            Value::String(s) => Ok(MapKey::String(s.clone())),
            Value::Float(f) => {
                if bits_are_nan(f.bits) {
                    let mut message = String::new();
                    push_str(&mut message, "map key ");
                    push_str(&mut message, "must not be NaN");
                    return Err(RuntimeError::new(span, message));
                }
                match float_to_i64(f.bits) {
                    Some(n) => Ok(MapKey::Int(n)),
                    None => Ok(MapKey::Float(FloatKey::from_repr(f.copy()))),
                }
            },
            _ => {
                let mut message = String::new();
                push_str(&mut message, "map key ");
                push_str(&mut message, "must be an integer, float, string, or boolean, got ");
                push_str(&mut message, value.kind_name());
                Err(RuntimeError::new(span, message))
            },
        }
    }
}

/// Whether a value is a number, string, boolean or `nil`.
pub open spec fn is_primitive(v: ValueV) -> bool {
    v is Int || v is Float || v is String || v is Bool || v is Nil
}

/// Equality of two numbers, when both are numbers and neither is NaN or (against an integer)
/// infinite. Integers and floats compare exactly.
pub open spec fn numeric_equal(a: ValueV, b: ValueV) -> Option<bool> {
    match (a, b) {
        (ValueV::Int(x), ValueV::Int(y)) => Some(x == y),
        (ValueV::Int(x), ValueV::Float(bits, _)) => if is_finite(bits) {
            Some(float_integer(bits) == Some(x as int))
        } else {
            None
        },
        (ValueV::Float(bits, _), ValueV::Int(y)) => if is_finite(bits) {
            Some(float_integer(bits) == Some(y as int))
        } else {
            None
        },
        (ValueV::Float(x, _), ValueV::Float(y, _)) => if is_nan(x) || is_nan(y) {
            None
        } else {
            Some(floats_equal(x, y))
        },
        _ => None,
    }
}

/// The language's `==` on primitive values; comparing a container is a hard error.
pub open spec fn primitive_equal(a: ValueV, b: ValueV) -> Result<bool, Seq<char>> {
    match numeric_equal(a, b) {
        Some(e) => Ok(e),
        None => match (a, b) {
            (ValueV::String(x), ValueV::String(y)) => Ok(x == y),
            (ValueV::Bool(x), ValueV::Bool(y)) => Ok(x == y),
            (ValueV::Nil, ValueV::Nil) => Ok(true),
            _ => if is_primitive(a) && is_primitive(b) {
                Ok(false)
            } else {
                Err("equality is not supported for "@ + kind_name_of(a) + " and "@ + kind_name_of(b))
            },
        },
    }
}

fn int_equals_float(n: i64, bits: u64) -> (r: bool)
    requires
        is_finite(bits),
    ensures
        r == (float_integer(bits) == Some(n as int)),
{
    match float_to_i64(bits) {
        Some(v) => v == n,
        None => false,
    }
}

/// Whether two values are numbers that compare equal.
pub fn numbers_equal(a: &Value, b: &Value) -> (r: bool)
    ensures
        r == (numeric_equal(a@, b@) == Some(true)),
{
    match (a, b) {
        (Value::Int(x), Value::Int(y)) => *x == *y,
        (Value::Int(x), Value::Float(f)) => bits_are_finite(f.bits) && int_equals_float(*x, f.bits),
        (Value::Float(f), Value::Int(y)) => bits_are_finite(f.bits) && int_equals_float(*y, f.bits),
        (Value::Float(x), Value::Float(y)) => !bits_are_nan(x.bits) && !bits_are_nan(y.bits)
            && bits_equal(x.bits, y.bits),
        _ => false,
    }
}

/// The language's `==` on primitive values.
pub fn values_equal(a: &Value, b: &Value, span: Span) -> (r: RuntimeResult<bool>)
    ensures
        match primitive_equal(a@, b@) {
            Ok(e) => r == Ok::<bool, RuntimeError>(e),
            Err(m) => r is Err && r->Err_0.message@ == m && r->Err_0.span == span,
        },
{
    match (a, b) {
        (Value::Int(x), Value::Int(y)) => return Ok(*x == *y),
        (Value::Int(x), Value::Float(f)) => if bits_are_finite(f.bits) {
            return Ok(int_equals_float(*x, f.bits));
        },
        (Value::Float(f), Value::Int(y)) => if bits_are_finite(f.bits) {
            return Ok(int_equals_float(*y, f.bits));
        },
        (Value::Float(x), Value::Float(y)) => if !bits_are_nan(x.bits) && !bits_are_nan(y.bits) {
            return Ok(bits_equal(x.bits, y.bits));
        },
        _ => {},
    }
    match (a, b) {
        (Value::String(x), Value::String(y)) => Ok(*x == *y),
        (Value::Bool(x), Value::Bool(y)) => Ok(*x == *y),
        (Value::Nil, Value::Nil) => Ok(true),
        _ => {
            let a_primitive = match a {
                Value::Int(_) | Value::Float(_) | Value::String(_) | Value::Bool(_) | Value::Nil => true,
                _ => false,
            };
            let b_primitive = match b {
                Value::Int(_) | Value::Float(_) | Value::String(_) | Value::Bool(_) | Value::Nil => true,
                _ => false,
            };
            if a_primitive && b_primitive {
                Ok(false)
            } else {
                let mut message = String::new();
                push_str(&mut message, "equality is not supported for ");
                push_str(&mut message, a.kind_name());
                push_str(&mut message, " and ");
                push_str(&mut message, b.kind_name());
                Err(RuntimeError::new(span, message))
            }
        },
    }
}

/// On strings, booleans and `nil`, equality is sameness: two such values are equal exactly when
/// they are the same value (so `true == false` is false, and values of different kinds differ).
pub proof fn lemma_equality_is_sameness(a: ValueV, b: ValueV)
    requires
        a is String || a is Bool || a is Nil,
        b is String || b is Bool || b is Nil,
    ensures
        primitive_equal(a, b) == Ok::<bool, Seq<char>>(a == b),
{
}

/// Equality on two booleans is boolean equality.
pub proof fn lemma_boolean_equality(x: bool, y: bool)
    ensures
        primitive_equal(ValueV::Bool(x), ValueV::Bool(y)) == Ok::<bool, Seq<char>>(x == y),
{
    lemma_equality_is_sameness(ValueV::Bool(x), ValueV::Bool(y));
}

} // verus!
