//! `std/float`: binary encodings of floating-point numbers, decided on bit patterns. Narrowing a
//! 64-bit float to 32 bits, widening one back and rendering a float are left to the caller, which
//! receives them as a pending `Narrow`, `Single` or `Double` outcome.
use vstd::prelude::*;
use crate::error::{RuntimeError, RuntimeResult};
use crate::float_bits::{bits_are_finite, fraction_field, is_finite, sign_negative};
use crate::heap::Heap;
use crate::span::Span;
use crate::text::{push_str, str_equal};
use crate::value::{values_view, Bytes, Value, ValueV};
use crate::native::integer::{
    be_value, big_value, le_value, lemma_be_bytes, lemma_le_bytes, little_value, raw_bytes,
    raw_bytes_vec, span_of, span_of_bytes,
};
use crate::native::support::{
    argument_error, arity_check, category_message, expect_arity, qualified, qualified_text,
};

verus! {

/// The module name used in diagnostics.
pub open spec fn module() -> Seq<char> {
    "std/float"@
}

/// A binary float format: precision and byte order.
#[derive(Clone, Copy, Debug, PartialEq, Eq, Structural)]
pub enum FloatFormat {
    F32Le,
    F32Be,
    F64Le,
    F64Be,
}

impl FloatFormat {
    /// The number of bytes of the format.
    pub open spec fn width(self) -> usize {
        match self {
            FloatFormat::F32Le | FloatFormat::F32Be => 4,
            FloatFormat::F64Le | FloatFormat::F64Be => 8,
        }
    }

    /// Whether the least significant byte comes first.
    pub open spec fn little(self) -> bool {
        self is F32Le || self is F64Le
    }

    /// The number of bytes of the format.
    pub fn byte_count(self) -> (n: usize)
        ensures
            n == self.width(),
    {
        match self {
            FloatFormat::F32Le | FloatFormat::F32Be => 4,
            FloatFormat::F64Le | FloatFormat::F64Be => 8,
        }
    }

    /// Whether the least significant byte comes first.
    pub fn is_little(self) -> (b: bool)
        ensures
            b == self.little(),
    {
        match self {
            FloatFormat::F32Le | FloatFormat::F64Le => true,
            _ => false,
        }
    }
}

/// The format a name such as `f32le` denotes.
pub open spec fn format_of(name: Seq<char>) -> Option<FloatFormat> {
    if name == "f32le"@ {
        Some(FloatFormat::F32Le)
    } else if name == "f32be"@ {
        Some(FloatFormat::F32Be)
    } else if name == "f64le"@ {
        Some(FloatFormat::F64Le)
    } else if name == "f64be"@ {
        Some(FloatFormat::F64Be)
    } else {
        None
    }
}

/// The bit pattern a special name (`inf`, `-inf`, `nan`) stands for in a format of `width` bytes.
pub open spec fn special_bits(name: Seq<char>, width: usize) -> Option<u64> {
    if name == "inf"@ {
        Some(if width == 4 { 0x7f800000u64 } else { 0x7ff0000000000000u64 })
    } else if name == "-inf"@ {
        Some(if width == 4 { 0xff800000u64 } else { 0xfff0000000000000u64 })
    } else if name == "nan"@ {
        Some(if width == 4 { 0x7fc00000u64 } else { 0x7ff8000000000000u64 })
    } else {
        None
    }
}

/// What `encode` produces: a finished value, or a 64-bit float that the caller narrows to 32
/// bits and lays out in the given byte order (`nil` when the narrowed value is not finite).
pub enum FloatEncoding {
    Ready(Value),
    Narrow { bits: u64, little: bool },
}

/// The model of an encoding.
pub enum EncodingV {
    Ready(ValueV),
    Narrow { bits: u64, little: bool },
}

/// The model of an encoding.
pub open spec fn encoding_view(e: FloatEncoding) -> EncodingV {
    match e {
        FloatEncoding::Ready(v) => EncodingV::Ready(v@),
        FloatEncoding::Narrow { bits, little } => EncodingV::Narrow { bits, little },
    }
}

/// What `decode` produces: a finished value, or the bits of a finite float that the caller turns
/// into a float value (widening a 32-bit one first).
pub enum FloatDecoding {
    Ready(Value),
    Double(u64),
    Single(u32),
}

/// The model of a decoding.
pub enum DecodingV {
    Ready(ValueV),
    Double(u64),
    Single(u32),
}

/// The model of a decoding.
pub open spec fn decoding_view(d: FloatDecoding) -> DecodingV {
    match d {
        FloatDecoding::Ready(v) => DecodingV::Ready(v@),
        FloatDecoding::Double(bits) => DecodingV::Double(bits),
        FloatDecoding::Single(bits) => DecodingV::Single(bits),
    }
}

/// The model of an `encode` result: the encoding, or the message of the hard error.
pub open spec fn encode_model(r: RuntimeResult<FloatEncoding>) -> Result<EncodingV, Seq<char>> {
    match r {
        Ok(e) => Ok(encoding_view(e)),
        Err(e) => Err(e.message@),
    }
}

/// The model of a `decode` result: the decoding, or the message of the hard error.
pub open spec fn decode_model(r: RuntimeResult<FloatDecoding>) -> Result<DecodingV, Seq<char>> {
    match r {
        Ok(d) => Ok(decoding_view(d)),
        Err(e) => Err(e.message@),
    }
}

/// The model of a format read: the format, or the message of the hard error.
pub open spec fn format_model(r: RuntimeResult<FloatFormat>) -> Result<FloatFormat, Seq<char>> {
    match r {
        Ok(f) => Ok(f),
        Err(e) => Err(e.message@),
    }
}

/// Diagnostic for a format name that is not one of the four.
pub open spec fn unknown_format_message(name: Seq<char>, format: Seq<char>) -> Seq<char> {
    qualified(module(), name)
        + " format must be one of \"f32le\", \"f32be\", \"f64le\", \"f64be\", got \""@ + format
        + "\""@
}

/// The format argument of a call, or the diagnostic.
pub open spec fn format_outcome(name: Seq<char>, v: ValueV) -> Result<FloatFormat, Seq<char>> {
    match v {
        ValueV::String(format) => match format_of(format) {
            Some(f) => Ok(f),
            None => Err(unknown_format_message(name, format)),
        },
        w => Err(category_message(module(), name, " "@ + "format"@ + " must be a string, got "@, w)),
    }
}

/// `encode(value, format)`: the bytes of a float or of `inf`, `-inf`, `nan`; a finite float in a
/// 32-bit format is handed on to be narrowed.
pub open spec fn encode_spec(args: Seq<ValueV>) -> Result<EncodingV, Seq<char>> {
    match arity_check(args, 2, module(), "encode"@, false) {
        Some(m) => Err(m),
        None => match format_outcome("encode"@, args[1]) {
            Err(m) => Err(m),
            Ok(f) => match args[0] {
                ValueV::Float(bits, _) => if f.width() == 8 {
                    Ok(EncodingV::Ready(ValueV::Bytes(raw_bytes(bits, 8, f.little()))))
                } else {
                    Ok(EncodingV::Narrow { bits, little: f.little() })
                },
                ValueV::String(name) => match special_bits(name, f.width()) {
                    Some(b) => Ok(EncodingV::Ready(ValueV::Bytes(raw_bytes(b, f.width(), f.little())))),
                    None => Err(
                        "std/float.encode expected a float or one of \"inf\", \"-inf\", \"nan\", got \""@
                            + name + "\""@,
                    ),
                },
                w => Err(category_message(
                    module(),
                    "encode"@,
                    " "@ + "first"@
                        + " argument must be a float or one of the exact strings \"inf\", \"-inf\", \"nan\", got "@,
                    w,
                )),
            },
        },
    }
}

/// The text `decode` returns for a non-finite float of the given sign.
pub open spec fn infinity_text(negative: bool) -> Seq<char> {
    if negative { "-inf"@ } else { "inf"@ }
}

/// What the bits of a 64-bit float decode to.
pub open spec fn decoded_double(bits: u64) -> DecodingV {
    if is_finite(bits) {
        DecodingV::Double(bits)
    } else if fraction_field(bits) == 0 {
        DecodingV::Ready(ValueV::String(infinity_text(sign_negative(bits))))
    } else {
        DecodingV::Ready(ValueV::String("nan"@))
    }
}

/// What the bits of a 32-bit float decode to.
pub open spec fn decoded_single(bits: u32) -> DecodingV {
    if (bits >> 23u32) & 0xffu32 != 0xff {
        DecodingV::Single(bits)
    } else if bits & 0x7fffffu32 == 0 {
        DecodingV::Ready(ValueV::String(infinity_text((bits >> 31u32) == 1)))
    } else {
        DecodingV::Ready(ValueV::String("nan"@))
    }
}

/// `decode(data, format)`: the float the bytes encode, `inf`, `-inf` or `nan` for a non-finite
/// one, or `nil` for a length other than the format's.
pub open spec fn decode_spec(args: Seq<ValueV>) -> Result<DecodingV, Seq<char>> {
    match arity_check(args, 2, module(), "decode"@, false) {
        Some(m) => Err(m),
        None => match args[0] {
            ValueV::Bytes(b) => match format_outcome("decode"@, args[1]) {
                Err(m) => Err(m),
                Ok(f) => if b.len() != f.width() {
                    Ok(DecodingV::Ready(ValueV::Nil))
                } else {
                    let raw = if f.little() { le_value(b) } else { be_value(b) };
                    if f.width() == 4 {
                        Ok(decoded_single(raw as u32))
                    } else {
                        Ok(decoded_double(raw as u64))
                    }
                },
            },
            w => Err(category_message(module(), "decode"@, " "@ + "first"@ + " argument must be bytes, got "@, w)),
        },
    }
}

/// The format a name denotes.
pub fn parse_format(name: &str) -> (f: Option<FloatFormat>)
    ensures
        f == format_of(name@),
{
    if str_equal(name, "f32le") {
        Some(FloatFormat::F32Le)
    } else if str_equal(name, "f32be") {
        Some(FloatFormat::F32Be)
    } else if str_equal(name, "f64le") {
        Some(FloatFormat::F64Le)
    } else if str_equal(name, "f64be") {
        Some(FloatFormat::F64Be)
    } else {
        None
    }
}

/// Reads the format argument of `name`.
fn expect_format(value: &Value, name: &str, span: Span) -> (r: RuntimeResult<FloatFormat>)
    ensures
        format_model(r) == format_outcome(name@, value@),
        r matches Err(e) ==> e.span == span,
{
    match value {
        Value::String(format) => match parse_format(format.as_str()) {
            Some(f) => Ok(f),
            None => {
                let mut message = qualified_text("std/float", name);
                push_str(
                    &mut message,
                    " format must be one of \"f32le\", \"f32be\", \"f64le\", \"f64be\", got \"",
                );
                push_str(&mut message, format.as_str());
                push_str(&mut message, "\"");
                Err(RuntimeError::new(span, message))
            },
        },
        other => Err(argument_error("std/float", name, "format", " must be a string, got ", other, span)),
    }
}

/// The bit pattern of a special name, if it is one.
fn special_pattern(name: &str, width: usize) -> (b: Option<u64>)
    ensures
        b == special_bits(name@, width),
{
    if str_equal(name, "inf") {
        Some(if width == 4 { 0x7f800000u64 } else { 0x7ff0000000000000u64 })
    } else if str_equal(name, "-inf") {
        Some(if width == 4 { 0xff800000u64 } else { 0xfff0000000000000u64 })
    } else if str_equal(name, "nan") {
        Some(if width == 4 { 0x7fc00000u64 } else { 0x7ff8000000000000u64 })
    } else {
        None
    }
}

/// `std/float.encode`, up to the narrowing of a finite float to 32 bits.
pub fn float_encode(heap: &mut Heap, args: &[Value], span: Span) -> (r: RuntimeResult<FloatEncoding>)
    ensures
        encode_model(r) == encode_spec(values_view(args@)),
        r matches Err(e) ==> e.span == span,
        final(heap)@ == old(heap)@,
{
    expect_arity(args, 2, "std/float", "encode", false, span)?;
    let format = expect_format(&args[1], "encode", span)?;
    let width = format.byte_count();
    let little = format.is_little();
    match &args[0] {
        Value::Float(value) => {
            if width == 8 {
                Ok(FloatEncoding::Ready(Value::Bytes(Bytes::new(raw_bytes_vec(value.bits, 8, little)))))
            } else {
                Ok(FloatEncoding::Narrow { bits: value.bits, little })
            }
        },
        Value::String(name) => match special_pattern(name.as_str(), width) {
            Some(bits) => Ok(FloatEncoding::Ready(Value::Bytes(Bytes::new(raw_bytes_vec(bits, width, little))))),
            None => {
                let mut message = String::new();
                push_str(
                    &mut message,
                    "std/float.encode expected a float or one of \"inf\", \"-inf\", \"nan\", got \"",
                );
                push_str(&mut message, name.as_str());
                push_str(&mut message, "\"");
                Err(RuntimeError::new(span, message))
            },
        },
        other => Err(argument_error(
            "std/float",
            "encode",
            "first",
            " argument must be a float or one of the exact strings \"inf\", \"-inf\", \"nan\", got ",
            other,
            span,
        )),
    }
}

/// What the bits of a 64-bit float decode to.
fn decode_double(bits: u64) -> (d: FloatDecoding)
    ensures
        decoding_view(d) == decoded_double(bits),
{
    if bits_are_finite(bits) {
        FloatDecoding::Double(bits)
    } else if bits & 0xfffffffffffffu64 == 0 {
        if (bits >> 63u64) == 1 {
            FloatDecoding::Ready(Value::String("-inf".to_owned()))
        } else {
            FloatDecoding::Ready(Value::String("inf".to_owned()))
        }
    } else {
        FloatDecoding::Ready(Value::String("nan".to_owned()))
    }
}

/// What the bits of a 32-bit float decode to.
fn decode_single(bits: u32) -> (d: FloatDecoding)
    ensures
        decoding_view(d) == decoded_single(bits),
{
    if (bits >> 23u32) & 0xffu32 != 0xff {
        FloatDecoding::Single(bits)
    } else if bits & 0x7fffffu32 == 0 {
        if (bits >> 31u32) == 1 {
            FloatDecoding::Ready(Value::String("-inf".to_owned()))
        } else {
            FloatDecoding::Ready(Value::String("inf".to_owned()))
        }
    } else {
        FloatDecoding::Ready(Value::String("nan".to_owned()))
    }
}

/// `std/float.decode`, up to turning the bits of a finite float into a float value.
pub fn float_decode(heap: &mut Heap, args: &[Value], span: Span) -> (r: RuntimeResult<FloatDecoding>)
    ensures
        decode_model(r) == decode_spec(values_view(args@)),
        r matches Err(e) ==> e.span == span,
        final(heap)@ == old(heap)@,
{
    expect_arity(args, 2, "std/float", "decode", false, span)?;
    let bytes = match &args[0] {
        Value::Bytes(b) => b,
        other => {
            return Err(argument_error("std/float", "decode", "first", " argument must be bytes, got ", other, span));
        },
    };
    let format = expect_format(&args[1], "decode", span)?;
    let data = bytes.as_slice();
    let width = format.byte_count();
    if data.len() != width {
        return Ok(FloatDecoding::Ready(Value::Nil));
    }
    let raw = if format.is_little() { little_value(data) } else { big_value(data) };
    if width == 4 {
        proof {
            reveal_with_fuel(span_of_bytes, 5);
        }
        Ok(decode_single(raw as u32))
    } else {
        Ok(decode_double(raw))
    }
}

/// The value stored in the bytes of `raw` laid out in a format's width and order is `raw`, when
/// `raw` fits in that width.
proof fn lemma_bytes_read_back(raw: u64, f: FloatFormat)
    requires
        raw < span_of(f.width()),
    ensures
        (if f.little() { le_value(raw_bytes(raw, f.width(), f.little())) } else {
            be_value(raw_bytes(raw, f.width(), f.little()))
        }) == raw,
{
    if f.little() {
        lemma_le_bytes(raw, f.width());
    } else {
        lemma_be_bytes(raw, f.width());
    }
    assert(raw as int % span_of(f.width()) == raw) by (nonlinear_arith)
        requires
            raw < span_of(f.width()),
            span_of(f.width()) > 0,
    ;
}

/// Decoding what `encode` made of a finite float in a 64-bit format gives back the float's bits.
pub proof fn lemma_double_round_trip(bits: u64, text: Seq<char>, name: Seq<char>)
    requires
        format_of(name) is Some,
        format_of(name)->Some_0.width() == 8,
        is_finite(bits),
    ensures
        encode_spec(seq![ValueV::Float(bits, text), ValueV::String(name)]) matches Ok(
            EncodingV::Ready(ValueV::Bytes(b)),
        ) && decode_spec(seq![ValueV::Bytes(b), ValueV::String(name)]) == Ok::<DecodingV, Seq<char>>(DecodingV::Double(bits)),
{
    let f = format_of(name)->Some_0;
    lemma_bytes_read_back(bits, f);
}

/// Decoding what `encode` made of `inf`, `-inf` or `nan` gives back the same name, in every
/// format.
pub proof fn lemma_special_round_trip(special: Seq<char>, name: Seq<char>)
    requires
        format_of(name) is Some,
        special == "inf"@ || special == "-inf"@ || special == "nan"@,
    ensures
        encode_spec(seq![ValueV::String(special), ValueV::String(name)]) matches Ok(
            EncodingV::Ready(ValueV::Bytes(b)),
        ) && decode_spec(seq![ValueV::Bytes(b), ValueV::String(name)]) == Ok::<DecodingV, Seq<char>>(
            DecodingV::Ready(ValueV::String(special)),
        ),
{
    reveal_strlit("inf");
    reveal_strlit("-inf");
    reveal_strlit("nan");
    let f = format_of(name)->Some_0;
    let bits = special_bits(special, f.width())->Some_0;
    lemma_bytes_read_back(bits, f);
    assert((0x7f800000u32 >> 23u32) & 0xffu32 == 0xff && 0x7f800000u32 & 0x7fffffu32 == 0
        && (0x7f800000u32 >> 31u32) == 0) by (bit_vector);
    assert((0xff800000u32 >> 23u32) & 0xffu32 == 0xff && 0xff800000u32 & 0x7fffffu32 == 0
        && (0xff800000u32 >> 31u32) == 1) by (bit_vector);
    assert((0x7fc00000u32 >> 23u32) & 0xffu32 == 0xff && 0x7fc00000u32 & 0x7fffffu32 != 0)
        by (bit_vector);
    assert(((0x7ff0000000000000u64 >> 52u64) & 0x7ffu64) == 0x7ff
        && 0x7ff0000000000000u64 & 0xfffffffffffffu64 == 0
        && (0x7ff0000000000000u64 >> 63u64) == 0) by (bit_vector);
    assert(((0xfff0000000000000u64 >> 52u64) & 0x7ffu64) == 0x7ff
        && 0xfff0000000000000u64 & 0xfffffffffffffu64 == 0
        && (0xfff0000000000000u64 >> 63u64) == 1) by (bit_vector);
    assert(((0x7ff8000000000000u64 >> 52u64) & 0x7ffu64) == 0x7ff
        && 0x7ff8000000000000u64 & 0xfffffffffffffu64 != 0) by (bit_vector);
}

} // verus!
