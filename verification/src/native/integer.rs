//! `std/integer`: fixed-width binary encodings of integers.
use vstd::prelude::*;
use crate::error::{NativeResult, RuntimeError, RuntimeResult};
use crate::heap::Heap;
use crate::span::Span;
use crate::text::{int_decimal, nat_decimal, push_i64_decimal, push_str, push_u64_decimal, str_equal};
use crate::value::{values_view, Bytes, Value, ValueV};
use crate::native::support::{
    argument_error, arity_check, category_message, expect_arity, plain_model, qualified,
    qualified_text,
};

verus! {

/// The module name used in diagnostics.
pub open spec fn module() -> Seq<char> {
    "std/integer"@
}

/// A binary integer format: signedness, width in bytes, and byte order.
#[derive(Clone, Copy, Debug, PartialEq, Eq)]
pub struct IntFormat {
    pub signed: bool,
    pub width: usize,
    pub little: bool,
}

/// The format a name such as `i16le` or `u64be` denotes.
pub open spec fn format_of(name: Seq<char>) -> Option<IntFormat> {
    if name == "i8le"@ { Some(IntFormat { signed: true, width: 1, little: true }) }
    else if name == "i8be"@ { Some(IntFormat { signed: true, width: 1, little: false }) }
    else if name == "u8le"@ { Some(IntFormat { signed: false, width: 1, little: true }) }
    else if name == "u8be"@ { Some(IntFormat { signed: false, width: 1, little: false }) }
    else if name == "i16le"@ { Some(IntFormat { signed: true, width: 2, little: true }) }
    else if name == "i16be"@ { Some(IntFormat { signed: true, width: 2, little: false }) }
    else if name == "u16le"@ { Some(IntFormat { signed: false, width: 2, little: true }) }
    else if name == "u16be"@ { Some(IntFormat { signed: false, width: 2, little: false }) }
    else if name == "i32le"@ { Some(IntFormat { signed: true, width: 4, little: true }) }
    else if name == "i32be"@ { Some(IntFormat { signed: true, width: 4, little: false }) }
    else if name == "u32le"@ { Some(IntFormat { signed: false, width: 4, little: true }) }
    else if name == "u32be"@ { Some(IntFormat { signed: false, width: 4, little: false }) }
    else if name == "i64le"@ { Some(IntFormat { signed: true, width: 8, little: true }) }
    else if name == "i64be"@ { Some(IntFormat { signed: true, width: 8, little: false }) }
    else if name == "u64le"@ { Some(IntFormat { signed: false, width: 8, little: true }) }
    else if name == "u64be"@ { Some(IntFormat { signed: false, width: 8, little: false }) }
    else { None }
}

/// `2` to the power `8 * width`, for the widths of the formats.
pub open spec fn span_of(width: usize) -> int {
    if width == 1 { 0x100 }
    else if width == 2 { 0x10000 }
    else if width == 4 { 0x100000000 }
    else { 0x10000000000000000 }
}

/// The smallest value a format encodes.
pub open spec fn min_of(f: IntFormat) -> int {
    if f.signed { -(span_of(f.width) / 2) } else { 0 }
}

/// The largest value a format encodes (for `u64`, the largest `i64`).
pub open spec fn max_of(f: IntFormat) -> int {
    if f.signed || f.width == 8 { span_of(f.width) / 2 - 1 } else { span_of(f.width) - 1 }
}

/// The two's-complement bytes of `raw` in the given width and order.
pub open spec fn raw_bytes(raw: u64, width: usize, little: bool) -> Seq<u8> {
    Seq::new(
        width as nat,
        |i: int|
            if little {
                ((raw >> (8 * i) as u64) & 0xffu64) as u8
            } else {
                ((raw >> (8 * (width - 1 - i)) as u64) & 0xffu64) as u8
            },
    )
}

/// The number bytes stand for, least significant first.
pub open spec fn le_value(b: Seq<u8>) -> int
    decreases b.len(),
{
    if b.len() == 0 { 0 } else { b[0] + 256 * le_value(b.drop_first()) }
}

/// The number bytes stand for, most significant first.
pub open spec fn be_value(b: Seq<u8>) -> int
    decreases b.len(),
{
    if b.len() == 0 { 0 } else { be_value(b.drop_last()) * 256 + b.last() }
}

/// Description of an unknown format: the name written as a debug-quoted string.
pub uninterp spec fn debug_quoted(s: Seq<char>) -> Seq<char>;

/// `encode(value, format)`: the bytes of `value` in `format`; out-of-range values are a hard
/// error.
pub open spec fn encode_spec(args: Seq<ValueV>) -> Result<ValueV, Seq<char>> {
    match arity_check(args, 2, module(), "encode"@, false) {
        Some(m) => Err(m),
        None => match args[0] {
            ValueV::Int(v) => match args[1] {
                ValueV::String(name) => match format_of(name) {
                    None => Err(qualified(module(), "encode"@) + " unknown format "@ + debug_quoted(name)),
                    Some(f) => if v < min_of(f) || v > max_of(f) {
                        Err("std/integer.encode value "@ + int_decimal(v as int) + " is out of range for "@ + name)
                    } else {
                        Ok(ValueV::Bytes(raw_bytes(v as u64, f.width, f.little)))
                    },
                },
                w => Err(category_message(module(), "encode"@, " "@ + "format"@ + " must be a string, got "@, w)),
            },
            w => Err(category_message(module(), "encode"@, " "@ + "value"@ + " must be an integer, got "@, w)),
        },
    }
}

/// `decode(data, format)`: the integer the bytes encode in `format`, or `nil` for a length other
/// than the width; an unsigned value above the largest `i64` is a hard error.
pub open spec fn decode_spec(args: Seq<ValueV>) -> Result<ValueV, Seq<char>> {
    match arity_check(args, 2, module(), "decode"@, false) {
        Some(m) => Err(m),
        None => match args[0] {
            ValueV::Bytes(b) => match args[1] {
                ValueV::String(name) => match format_of(name) {
                    None => Err(qualified(module(), "decode"@) + " unknown format "@ + debug_quoted(name)),
                    Some(f) => if b.len() != f.width {
                        Ok(ValueV::Nil)
                    } else {
                        let raw = if f.little { le_value(b) } else { be_value(b) };
                        if f.signed {
                            Ok(ValueV::Int((if raw >= span_of(f.width) / 2 { raw - span_of(f.width) } else { raw }) as i64))
                        } else if raw > i64::MAX {
                            Err("std/integer.decode decoded value "@ + nat_decimal(raw as nat) + " exceeds i64 for "@ + name)
                        } else {
                            Ok(ValueV::Int(raw as i64))
                        }
                    },
                },
                w => Err(category_message(module(), "decode"@, " "@ + "format"@ + " must be a string, got "@, w)),
            },
            w => Err(category_message(module(), "decode"@, " "@ + "data"@ + " must be bytes, got "@, w)),
        },
    }
}

/// Writes a string as `Debug` formatting does: quoted, with special characters escaped.
#[verifier::external_body]
fn debug_quote(text: &str) -> (quoted: String)
    ensures
        quoted@ == debug_quoted(text@),
{
    format!("{:?}", text)
}

/// The format a name denotes.
fn format_named(name: &str) -> (f: Option<IntFormat>)
    ensures
        f == format_of(name@),
{
    if str_equal(name, "i8le") { Some(IntFormat { signed: true, width: 1, little: true }) }
    else if str_equal(name, "i8be") { Some(IntFormat { signed: true, width: 1, little: false }) }
    else if str_equal(name, "u8le") { Some(IntFormat { signed: false, width: 1, little: true }) }
    else if str_equal(name, "u8be") { Some(IntFormat { signed: false, width: 1, little: false }) }
    else if str_equal(name, "i16le") { Some(IntFormat { signed: true, width: 2, little: true }) }
    else if str_equal(name, "i16be") { Some(IntFormat { signed: true, width: 2, little: false }) }
    else if str_equal(name, "u16le") { Some(IntFormat { signed: false, width: 2, little: true }) }
    else if str_equal(name, "u16be") { Some(IntFormat { signed: false, width: 2, little: false }) }
    else if str_equal(name, "i32le") { Some(IntFormat { signed: true, width: 4, little: true }) }
    else if str_equal(name, "i32be") { Some(IntFormat { signed: true, width: 4, little: false }) }
    else if str_equal(name, "u32le") { Some(IntFormat { signed: false, width: 4, little: true }) }
    else if str_equal(name, "u32be") { Some(IntFormat { signed: false, width: 4, little: false }) }
    else if str_equal(name, "i64le") { Some(IntFormat { signed: true, width: 8, little: true }) }
    else if str_equal(name, "i64be") { Some(IntFormat { signed: true, width: 8, little: false }) }
    else if str_equal(name, "u64le") { Some(IntFormat { signed: false, width: 8, little: true }) }
    else if str_equal(name, "u64be") { Some(IntFormat { signed: false, width: 8, little: false }) }
    else { None }
}

fn unknown_format(name: &str, format: &str, span: Span) -> (e: RuntimeError)
    ensures
        e.span == span,
        e.message@ == qualified(module(), name@) + " unknown format "@ + debug_quoted(format@),
{
    let mut message = qualified_text("std/integer", name);
    push_str(&mut message, " unknown format ");
    let quoted = debug_quote(format);
    push_str(&mut message, quoted.as_str());
    RuntimeError::new(span, message)
}

/// The format named by the `format` argument of `std/integer.<name>`, or the hard error at
/// `span` naming the function and showing the format debug-quoted.
pub fn parse_format(name: &str, format: &str, span: Span) -> (r: RuntimeResult<IntFormat>)
    ensures
        match format_of(format@) {
            Some(f) => r == Ok::<IntFormat, RuntimeError>(f),
            None => r matches Err(e) && e.span == span && e.message@ == qualified(module(), name@)
                + " unknown format "@ + debug_quoted(format@),
        },
{
    match format_named(format) {
        Some(f) => Ok(f),
        None => Err(unknown_format(name, format, span)),
    }
}

fn format_bounds(f: IntFormat) -> (bounds: (i64, i64))
    requires
        f.width == 1 || f.width == 2 || f.width == 4 || f.width == 8,
    ensures
        bounds.0 == min_of(f),
        bounds.1 == max_of(f),
{
    if f.signed {
        if f.width == 1 { (-128, 127) }
        else if f.width == 2 { (-32768, 32767) }
        else if f.width == 4 { (-2147483648, 2147483647) }
        else { (i64::MIN, i64::MAX) }
    } else {
        if f.width == 1 { (0, 255) }
        else if f.width == 2 { (0, 65535) }
        else if f.width == 4 { (0, 4294967295) }
        else { (0, i64::MAX) }
    }
}

/// The bytes of `raw` in the given width and order, as a vector.
pub(crate) fn raw_bytes_vec(raw: u64, width: usize, little: bool) -> (bytes: Vec<u8>)
    requires
        width <= 8,
    ensures
        bytes@ == raw_bytes(raw, width, little),
{
    let mut bytes: Vec<u8> = Vec::new();
    let mut i: usize = 0;
    while i < width
        invariant
            i <= width,
            width <= 8,
            bytes@.len() == i,
            forall|k: int| 0 <= k < i ==> #[trigger] bytes@[k] == raw_bytes(raw, width, little)[k],
        decreases width - i,
    {
        let shift: u64 = if little { 8 * i as u64 } else { 8 * (width - 1 - i) as u64 };
        bytes.push(((raw >> shift) & 0xff) as u8);
        i = i + 1;
    }
    assert(bytes@ =~= raw_bytes(raw, width, little));
    bytes
}

/// `std/integer.encode`.
pub fn integer_encode(heap: &mut Heap, args: &[Value], span: Span) -> (r: NativeResult)
    ensures
        plain_model(r) == encode_spec(values_view(args@)),
        !(r matches Ok(Err(_))),
        r matches Err(e) ==> e.span == span,
        final(heap)@ == old(heap)@,
{
    expect_arity(args, 2, "std/integer", "encode", false, span)?;
    let value = match &args[0] {
        Value::Int(v) => *v,
        other => {
            return Err(argument_error("std/integer", "encode", "value", " must be an integer, got ", other, span));
        },
    };
    let name = match &args[1] {
        Value::String(s) => s,
        other => {
            return Err(argument_error("std/integer", "encode", "format", " must be a string, got ", other, span));
        },
    };
    let format = parse_format("encode", name.as_str(), span)?;
    let (min, max) = format_bounds(format);
    if value < min || value > max {
        let mut message = String::new();
        push_str(&mut message, "std/integer.encode value ");
        push_i64_decimal(&mut message, value);
        push_str(&mut message, " is out of range for ");
        push_str(&mut message, name.as_str());
        return Err(RuntimeError::new(span, message));
    }
    let bytes = raw_bytes_vec(value as u64, format.width, format.little);
    Ok(Ok(Value::Bytes(Bytes::new(bytes))))
}

pub(crate) fn little_value(b: &[u8]) -> (raw: u64)
    requires
        b@.len() <= 8,
    ensures
        raw == le_value(b@),
        raw < span_of_bytes(b@.len()),
{
    let mut raw: u64 = 0;
    let mut i: usize = b.len();
    proof {
        assert(b@.skip(b@.len() as int) =~= Seq::<u8>::empty());
    }
    while i > 0
        invariant
            i <= b@.len() <= 8,
            raw == le_value(b@.skip(i as int)),
            le_value(b@.skip(i as int)) < span_of_bytes((b@.len() - i) as nat),
        decreases i,
    {
        proof {
            assert(b@.skip(i - 1).drop_first() =~= b@.skip(i as int));
            lemma_span_step((b@.len() - i) as nat);
        }
        raw = raw * 256 + b[i - 1] as u64;
        i = i - 1;
    }
    assert(b@.skip(0) =~= b@);
    raw
}

/// `256` to the power `n`.
pub open spec fn span_of_bytes(n: nat) -> int
    decreases n,
{
    if n == 0 { 1 } else { 256 * span_of_bytes((n - 1) as nat) }
}

proof fn lemma_span_step(n: nat)
    requires
        n < 8,
    ensures
        span_of_bytes(n + 1) == 256 * span_of_bytes(n),
        span_of_bytes(n) <= 0x100000000000000,
{
    reveal_with_fuel(span_of_bytes, 9);
}

pub(crate) fn big_value(b: &[u8]) -> (raw: u64)
    requires
        b@.len() <= 8,
    ensures
        raw == be_value(b@),
        raw < span_of_bytes(b@.len()),
{
    let mut raw: u64 = 0;
    let mut i: usize = 0;
    proof {
        assert(b@.take(0) =~= Seq::<u8>::empty());
    }
    while i < b.len()
        invariant
            i <= b@.len() <= 8,
            raw == be_value(b@.take(i as int)),
            be_value(b@.take(i as int)) < span_of_bytes(i as nat),
        decreases b@.len() - i,
    {
        proof {
            assert(b@.take(i + 1).drop_last() =~= b@.take(i as int));
            lemma_span_step(i as nat);
        }
        raw = raw * 256 + b[i] as u64;
        i = i + 1;
    }
    assert(b@.take(i as int) =~= b@);
    raw
}

/// `std/integer.decode`.
pub fn integer_decode(heap: &mut Heap, args: &[Value], span: Span) -> (r: NativeResult)
    ensures
        plain_model(r) == decode_spec(values_view(args@)),
        !(r matches Ok(Err(_))),
        r matches Err(e) ==> e.span == span,
        final(heap)@ == old(heap)@,
{
    expect_arity(args, 2, "std/integer", "decode", false, span)?;
    let bytes = match &args[0] {
        Value::Bytes(b) => b,
        other => {
            return Err(argument_error("std/integer", "decode", "data", " must be bytes, got ", other, span));
        },
    };
    let name = match &args[1] {
        Value::String(s) => s,
        other => {
            return Err(argument_error("std/integer", "decode", "format", " must be a string, got ", other, span));
        },
    };
    let format = parse_format("decode", name.as_str(), span)?;
    let data = bytes.as_slice();
    if data.len() != format.width {
        return Ok(Ok(Value::Nil));
    }
    let raw = if format.little { little_value(data) } else { big_value(data) };
    proof {
        reveal_with_fuel(span_of_bytes, 9);
        assert(span_of_bytes(data@.len()) == span_of(format.width));
    }
    if format.signed {
        let half: u64 = if format.width == 1 { 0x80 } else if format.width == 2 { 0x8000 } else if format.width == 4 { 0x80000000 } else { 0x8000000000000000 };
        let value: i64 = if raw >= half {
            if format.width == 8 {
                (raw - half) as i64 - i64::MAX - 1
            } else {
                (raw as i64) - ((2 * half) as i64)
            }
        } else {
            raw as i64
        };
        Ok(Ok(Value::Int(value)))
    } else {
        if raw > i64::MAX as u64 {
            let mut message = String::new();
            push_str(&mut message, "std/integer.decode decoded value ");
            push_u64_decimal(&mut message, raw);
            push_str(&mut message, " exceeds i64 for ");
            push_str(&mut message, name.as_str());
            return Err(RuntimeError::new(span, message));
        }
        Ok(Ok(Value::Int(raw as i64)))
    }
}


/// Reading the little-endian bytes of `raw` back gives `raw` modulo the width's span.
pub(crate) proof fn lemma_le_bytes(raw: u64, w: usize)
    requires
        w == 1 || w == 2 || w == 4 || w == 8,
    ensures
        le_value(raw_bytes(raw, w, true)) == raw as int % span_of(w),
{
    let b = raw_bytes(raw, w, true);
    reveal_with_fuel(le_value, 9);
    let d1 = b.drop_first();
    let d2 = d1.drop_first();
    let d3 = d2.drop_first();
    let d4 = d3.drop_first();
    let d5 = d4.drop_first();
    let d6 = d5.drop_first();
    let d7 = d6.drop_first();
    let d8 = d7.drop_first();
    assert(b[0] == ((raw >> 0u64) & 0xff) as u8);
    if w == 1 {
        assert(d1.len() == 0);
        assert(raw % 0x100 == ((raw >> 0u64) & 0xff) as u8) by (bit_vector);
    } else if w == 2 {
        assert(d1[0] == b[1]);
        assert(b[1] == ((raw >> 8u64) & 0xff) as u8);
        assert(d2.len() == 0);
        assert(raw % 0x10000 == ((raw >> 0u64) & 0xff) as u8 + 256 * (((raw >> 8u64) & 0xff) as u8)) by (bit_vector);
    } else if w == 4 {
        assert(d1[0] == b[1]);
        assert(d2[0] == b[2]);
        assert(d3[0] == b[3]);
        assert(b[1] == ((raw >> 8u64) & 0xff) as u8);
        assert(b[2] == ((raw >> 16u64) & 0xff) as u8);
        assert(b[3] == ((raw >> 24u64) & 0xff) as u8);
        assert(d4.len() == 0);
        assert(raw % 0x100000000 == ((raw >> 0u64) & 0xff) as u8 + 256 * (((raw >> 8u64) & 0xff) as u8
            + 256 * (((raw >> 16u64) & 0xff) as u8 + 256 * (((raw >> 24u64) & 0xff) as u8)))) by (bit_vector);
    } else {
        assert(d1[0] == b[1]);
        assert(d2[0] == b[2]);
        assert(d3[0] == b[3]);
        assert(d4[0] == b[4]);
        assert(d5[0] == b[5]);
        assert(d6[0] == b[6]);
        assert(d7[0] == b[7]);
        assert(b[1] == ((raw >> 8u64) & 0xff) as u8);
        assert(b[2] == ((raw >> 16u64) & 0xff) as u8);
        assert(b[3] == ((raw >> 24u64) & 0xff) as u8);
        assert(b[4] == ((raw >> 32u64) & 0xff) as u8);
        assert(b[5] == ((raw >> 40u64) & 0xff) as u8);
        assert(b[6] == ((raw >> 48u64) & 0xff) as u8);
        assert(b[7] == ((raw >> 56u64) & 0xff) as u8);
        assert(d8.len() == 0);
        assert(raw == ((raw >> 0u64) & 0xff) as u8 + 256 * (((raw >> 8u64) & 0xff) as u8
            + 256 * (((raw >> 16u64) & 0xff) as u8 + 256 * (((raw >> 24u64) & 0xff) as u8
            + 256 * (((raw >> 32u64) & 0xff) as u8 + 256 * (((raw >> 40u64) & 0xff) as u8
            + 256 * (((raw >> 48u64) & 0xff) as u8 + 256 * (((raw >> 56u64) & 0xff) as u8)))))))) by (bit_vector);
    }
}


/// Reading the big-endian bytes of `raw` back gives `raw` modulo the width's span.
pub(crate) proof fn lemma_be_bytes(raw: u64, w: usize)
    requires
        w == 1 || w == 2 || w == 4 || w == 8,
    ensures
        be_value(raw_bytes(raw, w, false)) == raw as int % span_of(w),
{
    let b = raw_bytes(raw, w, false);
    reveal_with_fuel(be_value, 9);
    if w == 1 {
        let e1 = b.drop_last();
        assert(b[0] == (((raw >> 0u64) & 0xff) as u8));
        assert(e1.len() == 0);
        assert(raw % 0x100 == (((raw >> 0u64) & 0xff) as u8)) by (bit_vector);
    } else if w == 2 {
        let e1 = b.drop_last();
        let e2 = e1.drop_last();
        assert(e1.last() == b[0]);
        assert(b[0] == (((raw >> 8u64) & 0xff) as u8));
        assert(b[1] == (((raw >> 0u64) & 0xff) as u8));
        assert(e2.len() == 0);
        assert(raw % 0x10000 == ((((raw >> 8u64) & 0xff) as u8) * 256 + (((raw >> 0u64) & 0xff) as u8))) by (bit_vector);
    } else if w == 4 {
        let e1 = b.drop_last();
        let e2 = e1.drop_last();
        let e3 = e2.drop_last();
        let e4 = e3.drop_last();
        assert(e1.last() == b[2]);
        assert(e2.last() == b[1]);
        assert(e3.last() == b[0]);
        assert(b[0] == (((raw >> 24u64) & 0xff) as u8));
        assert(b[1] == (((raw >> 16u64) & 0xff) as u8));
        assert(b[2] == (((raw >> 8u64) & 0xff) as u8));
        assert(b[3] == (((raw >> 0u64) & 0xff) as u8));
        assert(e4.len() == 0);
        assert(raw % 0x100000000 == ((((((raw >> 24u64) & 0xff) as u8) * 256 + (((raw >> 16u64) & 0xff) as u8)) * 256 + (((raw >> 8u64) & 0xff) as u8)) * 256 + (((raw >> 0u64) & 0xff) as u8))) by (bit_vector);
    } else {
        let e1 = b.drop_last();
        let e2 = e1.drop_last();
        let e3 = e2.drop_last();
        let e4 = e3.drop_last();
        let e5 = e4.drop_last();
        let e6 = e5.drop_last();
        let e7 = e6.drop_last();
        let e8 = e7.drop_last();
        assert(e1.last() == b[6]);
        assert(e2.last() == b[5]);
        assert(e3.last() == b[4]);
        assert(e4.last() == b[3]);
        assert(e5.last() == b[2]);
        assert(e6.last() == b[1]);
        assert(e7.last() == b[0]);
        assert(b[0] == (((raw >> 56u64) & 0xff) as u8));
        assert(b[1] == (((raw >> 48u64) & 0xff) as u8));
        assert(b[2] == (((raw >> 40u64) & 0xff) as u8));
        assert(b[3] == (((raw >> 32u64) & 0xff) as u8));
        assert(b[4] == (((raw >> 24u64) & 0xff) as u8));
        assert(b[5] == (((raw >> 16u64) & 0xff) as u8));
        assert(b[6] == (((raw >> 8u64) & 0xff) as u8));
        assert(b[7] == (((raw >> 0u64) & 0xff) as u8));
        assert(e8.len() == 0);
        assert(raw == ((((((((((raw >> 56u64) & 0xff) as u8) * 256 + (((raw >> 48u64) & 0xff) as u8)) * 256 + (((raw >> 40u64) & 0xff) as u8)) * 256 + (((raw >> 32u64) & 0xff) as u8)) * 256 + (((raw >> 24u64) & 0xff) as u8)) * 256 + (((raw >> 16u64) & 0xff) as u8)) * 256 + (((raw >> 8u64) & 0xff) as u8)) * 256 + (((raw >> 0u64) & 0xff) as u8))) by (bit_vector);
    }
}


/// The low bytes of a value in a signed format's range, read back unsigned, give the value
/// itself or the value plus the span.
proof fn lemma_twos_complement(v: i64, w: usize)
    requires
        w == 1 || w == 2 || w == 4 || w == 8,
        -(span_of(w) / 2) <= v < span_of(w) / 2,
    ensures
        (v as u64) as int % span_of(w) == if v >= 0 { v as int } else { v + span_of(w) },
{
    if w == 1 {
        assert(-128 <= v < 128 ==> (v as u64) % 0x100 == if v >= 0 { v as u64 } else { (v + 0x100) as u64 }) by (bit_vector);
    } else if w == 2 {
        assert(-0x8000 <= v < 0x8000 ==> (v as u64) % 0x10000 == if v >= 0 { v as u64 } else { (v + 0x10000) as u64 }) by (bit_vector);
    } else if w == 4 {
        assert(-0x80000000 <= v < 0x80000000 ==> (v as u64) % 0x100000000 == if v >= 0 { v as u64 } else { (v + 0x100000000) as u64 }) by (bit_vector);
    } else {
        assert((v as u64) == if v >= 0 { v as u64 } else { (v + 0x10000000000000000) as u64 }) by (bit_vector);
    }
}

/// Decoding what `encode` produced gives back the value, for every format and every value in
/// that format's range.
pub proof fn lemma_integer_round_trip(value: i64, name: Seq<char>)
    requires
        format_of(name) is Some,
        min_of(format_of(name)->Some_0) <= value <= max_of(format_of(name)->Some_0),
    ensures
        encode_spec(seq![ValueV::Int(value), ValueV::String(name)]) matches Ok(ValueV::Bytes(data))
            && decode_spec(seq![ValueV::Bytes(data), ValueV::String(name)]) == Ok::<ValueV, Seq<char>>(ValueV::Int(value)),
{
    let f = format_of(name)->Some_0;
    let raw = value as u64;
    let data = raw_bytes(raw, f.width, f.little);
    assert(encode_spec(seq![ValueV::Int(value), ValueV::String(name)]) == Ok::<ValueV, Seq<char>>(ValueV::Bytes(data)));
    if f.little {
        lemma_le_bytes(raw, f.width);
    } else {
        lemma_be_bytes(raw, f.width);
    }
    if f.signed {
        lemma_twos_complement(value, f.width);
    } else {
        assert(raw as int == value as int);
        if f.width == 8 {
            assert(raw as int % span_of(f.width) == raw as int);
        }
    }
    assert(decode_spec(seq![ValueV::Bytes(data), ValueV::String(name)]) == Ok::<ValueV, Seq<char>>(ValueV::Int(value)));
}

} // verus!
