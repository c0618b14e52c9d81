use simi::error::{NativeResult, RuntimeError};
use simi::heap::Heap;
use simi::native::float::{FloatDecoding, FloatEncoding};
use simi::span::Span;
use simi::value::{Bytes, FloatRepr, Value};

const SPAN: Span = Span { start: 2, end: 5 };

fn float_value(value: f64) -> Value {
    Value::Float(FloatRepr::new(value.to_bits(), format!("{value:?}")))
}

/// `std/float.encode`, with a pending narrowing carried out as the command does.
fn float_encode(args: &[Value], span: Span) -> NativeResult {
    let mut heap = Heap::new();
    Ok(Ok(match simi::native::float::float_encode(&mut heap, args, span)? {
        FloatEncoding::Ready(value) => value,
        FloatEncoding::Narrow { bits, little } => {
            let narrowed = f64::from_bits(bits) as f32;
            if !narrowed.is_finite() {
                Value::Nil
            } else if little {
                Value::Bytes(Bytes::new(narrowed.to_le_bytes().to_vec()))
            } else {
                Value::Bytes(Bytes::new(narrowed.to_be_bytes().to_vec()))
            }
        }
    }))
}

/// `std/float.decode`, with the pending float value made as the command does.
fn float_decode(args: &[Value], span: Span) -> NativeResult {
    let mut heap = Heap::new();
    Ok(Ok(match simi::native::float::float_decode(&mut heap, args, span)? {
        FloatDecoding::Ready(value) => value,
        FloatDecoding::Double(bits) => float_value(f64::from_bits(bits)),
        FloatDecoding::Single(bits) => float_value(f32::from_bits(bits) as f64),
    }))
}

fn result(result: NativeResult) -> Value {
    result.unwrap().unwrap()
}

fn hard_error(result: NativeResult) -> RuntimeError {
    match result {
        Err(error) => error,
        Ok(Ok(value)) => panic!("expected hard error, got {:?}", value),
        Ok(Err(raised)) => panic!("expected hard error, got {:?}", raised),
    }
}

fn bytes(data: &[u8]) -> Value {
    Value::Bytes(Bytes::new(data.to_vec()))
}

fn f(value: f64) -> Value {
    float_value(value)
}

fn s(value: &str) -> Value {
    Value::String(value.to_owned())
}

fn float_of(value: &Value) -> Option<f64> {
    match value {
        Value::Float(repr) => Some(f64::from_bits(repr.bits)),
        _ => None,
    }
}

fn is_string(value: &Value, text: &str) -> bool {
    matches!(value, Value::String(s) if s == text)
}

#[test]
fn finite_f64_encode_round_trip() {
    for &(value, format_str) in &[
        (0.0, "f64le"),
        (-0.0, "f64le"),
        (0.0, "f64be"),
        (-0.0, "f64be"),
        (1.0, "f64le"),
        (-1.0, "f64le"),
        (std::f64::consts::PI, "f64be"),
        (f64::MAX, "f64le"),
    ] {
        let encoded = result(float_encode(&[f(value), s(format_str)], SPAN));
        let decoded = result(float_decode(&[encoded, s(format_str)], SPAN));
        assert!(
            float_of(&decoded).map(|v| v.to_bits()) == Some(value.to_bits()),
            "round-trip {value} {format_str}: got {:?}",
            decoded,
        );
    }
}

#[test]
fn signed_zero_encode_round_trip() {
    let pos_zero = f(0.0);
    let neg_zero = f(-0.0);

    for format_str in &["f32le", "f32be", "f64le", "f64be"] {
        let fmt = s(format_str);

        let encoded_pos = result(float_encode(&[pos_zero.clone(), fmt.clone()], SPAN));
        let decoded_pos = result(float_decode(&[encoded_pos, fmt.clone()], SPAN));
        assert!(float_of(&decoded_pos).map(|v| v.to_bits()) == Some(0u64));
        match &decoded_pos {
            Value::Float(repr) => assert!(repr.text.parse::<f64>().unwrap() >= 0.0),
            other => panic!("expected a float, got {:?}", other),
        }

        let encoded_neg = result(float_encode(&[neg_zero.clone(), fmt.clone()], SPAN));
        let decoded_neg = result(float_decode(&[encoded_neg, fmt.clone()], SPAN));
        assert!(float_of(&decoded_neg).map(|v| v.to_bits()) == Some((-0.0f64).to_bits()));
        match &decoded_neg {
            Value::Float(repr) => assert!(repr.text.parse::<f64>().unwrap() <= 0.0),
            other => panic!("expected a float, got {:?}", other),
        }
    }
}

#[test]
fn f64_to_f32_narrowing_returns_nil_for_nonfinite() {
    let encoded = float_encode(&[f(f64::MAX), s("f32le")], SPAN);
    assert!(matches!(encoded, Ok(Ok(Value::Nil))));
}

#[test]
fn finite_f32_encode_round_trip() {
    let values = [
        0.0f64,
        -0.0f64,
        std::f32::consts::PI as f64,
        -(std::f32::consts::PI as f64),
        1.0f64,
        f32::MAX as f64,
    ];
    for &value in &values {
        for format_str in &["f32le", "f32be"] {
            let fmt = s(format_str);
            let encoded = result(float_encode(&[f(value), fmt.clone()], SPAN));
            let decoded = result(float_decode(&[encoded, fmt], SPAN));
            match float_of(&decoded) {
                Some(v) => {
                    let expected = value as f32 as f64;
                    assert_eq!(v.to_bits(), expected.to_bits(), "narrow {value} {format_str}");
                }
                None => panic!("{format_str} decode of {value}: expected float, got {:?}", decoded),
            }
        }
    }
}

#[test]
fn special_strings_encode_decode() {
    for special in &["inf", "-inf", "nan"] {
        for format_str in &["f32le", "f32be", "f64le", "f64be"] {
            let fmt = s(format_str);
            let encoded = result(float_encode(&[s(special), fmt.clone()], SPAN));
            let decoded = result(float_decode(&[encoded, fmt], SPAN));
            assert!(
                is_string(&decoded, special),
                "encode/decode {special} {format_str}: got {:?}",
                decoded,
            );
        }
    }
}

#[test]
fn invalid_special_string_hard_error() {
    let error = hard_error(float_encode(&[s("infinite"), s("f64le")], SPAN));
    assert!(error.message.starts_with("std/float.encode"));
    assert!(error.message.contains("inf"));
}

#[test]
fn wrong_byte_length_decode_returns_nil() {
    for format_str in &["f32le", "f32be"] {
        let fmt = s(format_str);
        let encoded = bytes(&[0, 0, 0, 0, 0, 0, 0, 0]);
        assert!(matches!(float_decode(&[encoded, fmt], SPAN), Ok(Ok(Value::Nil))));
    }
    for format_str in &["f64le", "f64be"] {
        let fmt = s(format_str);
        let encoded = bytes(&[0, 0, 0, 0]);
        assert!(matches!(float_decode(&[encoded, fmt], SPAN), Ok(Ok(Value::Nil))));
    }
}

#[test]
fn decode_returns_special_strings_for_ieee_nonfinite() {
    let decoded = result(float_decode(&[bytes(&[0x00, 0x00, 0x80, 0x7f]), s("f32le")], SPAN));
    assert!(is_string(&decoded, "inf"));

    let decoded = result(float_decode(&[bytes(&[0x00, 0x00, 0x80, 0xff]), s("f32le")], SPAN));
    assert!(is_string(&decoded, "-inf"));

    let decoded = result(float_decode(&[bytes(&[0x00, 0x00, 0xc0, 0x7f]), s("f32le")], SPAN));
    assert!(is_string(&decoded, "nan"));

    let decoded = result(float_decode(&[bytes(&[0x00, 0x00, 0xc0, 0xff]), s("f32le")], SPAN));
    assert!(is_string(&decoded, "nan"));

    let inf64_le = bytes(&[0x00, 0x00, 0x00, 0x00, 0x00, 0x00, 0xf0, 0x7f]);
    let decoded = result(float_decode(&[inf64_le, s("f64le")], SPAN));
    assert!(is_string(&decoded, "inf"));

    let neg_inf64_le = bytes(&[0x00, 0x00, 0x00, 0x00, 0x00, 0x00, 0xf0, 0xff]);
    let decoded = result(float_decode(&[neg_inf64_le, s("f64le")], SPAN));
    assert!(is_string(&decoded, "-inf"));

    let nan64_le = bytes(&[0x00, 0x00, 0x00, 0x00, 0x00, 0x00, 0xf8, 0x7f]);
    let decoded = result(float_decode(&[nan64_le, s("f64le")], SPAN));
    assert!(is_string(&decoded, "nan"));
}

#[test]
fn big_endian_decode_correct() {
    let decoded = result(float_decode(&[bytes(&[0x40, 0x48, 0xf5, 0xc3]), s("f32be")], SPAN));
    assert!(float_of(&decoded).map_or(false, |v| (v - std::f32::consts::PI as f64).abs() < 0.01));

    let decoded = result(float_decode(&[bytes(&[0x7f, 0x80, 0x00, 0x00]), s("f32be")], SPAN));
    assert!(is_string(&decoded, "inf"));

    let decoded = result(float_decode(&[bytes(&[0xff, 0x80, 0x00, 0x00]), s("f32be")], SPAN));
    assert!(is_string(&decoded, "-inf"));

    let pi_f64_be = bytes(&[0x40, 0x09, 0x21, 0xfb, 0x54, 0x44, 0x2d, 0x18]);
    let decoded = result(float_decode(&[pi_f64_be, s("f64be")], SPAN));
    assert!(float_of(&decoded).map_or(false, |v| (v - std::f64::consts::PI).abs() < 1e-14));
}

#[test]
fn decode_empty_bytes_returns_nil() {
    assert!(matches!(float_decode(&[bytes(&[]), s("f32le")], SPAN), Ok(Ok(Value::Nil))));
    assert!(matches!(float_decode(&[bytes(&[]), s("f64le")], SPAN), Ok(Ok(Value::Nil))));
}

#[test]
fn wrong_arity_hard_error() {
    let error = hard_error(float_encode(&[], SPAN));
    assert!(error.message.starts_with("std/float.encode"), "{}", error.message);
    assert!(error.message.contains("expects 2"), "{}", error.message);

    let error = hard_error(float_decode(&[f(1.0)], SPAN));
    assert!(error.message.starts_with("std/float.decode"), "{}", error.message);
    assert!(error.message.contains("expects 2"), "{}", error.message);
}

#[test]
fn wrong_category_hard_errors() {
    let error = hard_error(float_encode(&[Value::Int(1), s("f64le")], SPAN));
    assert!(error.message.starts_with("std/float.encode"));
    assert!(error.message.contains("integer"));

    let error = hard_error(float_decode(&[Value::Int(1), s("f64le")], SPAN));
    assert!(error.message.starts_with("std/float.decode"));
    assert!(error.message.contains("bytes"));

    let error = hard_error(float_encode(&[f(1.0), s("f16le")], SPAN));
    assert!(error.message.starts_with("std/float.encode"));
    assert!(error.message.contains("f16le"));

    let error = hard_error(float_encode(&[f(1.0), Value::Int(1)], SPAN));
    assert!(error.message.starts_with("std/float.encode"));
    assert!(error.message.contains("integer"));

    let error = hard_error(float_decode(&[bytes(&[0, 0, 0, 0]), Value::Int(1)], SPAN));
    assert!(error.message.starts_with("std/float.decode"));
}

#[test]
fn all_diagnostics_use_qualified_std_float() {
    let cases: Vec<NativeResult> = vec![
        float_encode(&[], SPAN),
        float_encode(&[Value::Int(1), s("f64le")], SPAN),
        float_encode(&[s("garbage"), s("f64le")], SPAN),
        float_encode(&[f(1.0), Value::Int(1)], SPAN),
        float_decode(&[], SPAN),
        float_decode(&[f(1.0), s("f64le")], SPAN),
        float_decode(&[bytes(&[1, 2, 3]), Value::Int(1)], SPAN),
    ];
    for case in cases {
        let error = hard_error(case);
        assert!(error.message.starts_with("std/float."), "expected std/float prefix: {}", error.message);
    }
}

#[test]
fn nil_return_cases() {
    assert!(matches!(float_encode(&[f(f64::MAX), s("f32be")], SPAN), Ok(Ok(Value::Nil))));
    assert!(matches!(
        float_decode(&[bytes(&[0, 0, 0, 0, 0, 0]), s("f32le")], SPAN),
        Ok(Ok(Value::Nil))
    ));
}

#[test]
fn zero_length_round_trips() {
    for format_str in &["f32le", "f32be", "f64le", "f64be"] {
        let encoded = result(float_encode(&[f(0.0), s(format_str)], SPAN));
        if let Value::Bytes(b) = &encoded {
            assert!(b.as_slice().iter().all(|&x| x == 0), "0.0 in {format_str}: got {:?}", encoded);
        } else {
            panic!("expected bytes for 0.0 in {format_str}");
        }

        let encoded_neg = result(float_encode(&[f(-0.0), s(format_str)], SPAN));
        if let Value::Bytes(b) = &encoded_neg {
            match format_str {
                &"f64le" | &"f32le" => assert_eq!(b.as_slice().last(), Some(&0x80)),
                &"f64be" | &"f32be" => assert_eq!(b.as_slice().first(), Some(&0x80)),
                _ => unreachable!(),
            }
        } else {
            panic!("expected bytes for -0.0 in {format_str}");
        }
    }
}

#[test]
fn special_and_wide_encodings_are_exact_bytes() {
    let mut heap = Heap::new();
    let encoded = simi::native::float::float_encode(&mut heap, &[s("inf"), s("f32be")], SPAN);
    assert!(matches!(encoded, Ok(FloatEncoding::Ready(Value::Bytes(ref b))) if b.as_slice() == [0x7f, 0x80, 0x00, 0x00]));
    let encoded = simi::native::float::float_encode(&mut heap, &[f(1.0), s("f64be")], SPAN);
    assert!(matches!(encoded, Ok(FloatEncoding::Ready(Value::Bytes(ref b)))
        if b.as_slice() == [0x3f, 0xf0, 0, 0, 0, 0, 0, 0]));
    let pending = simi::native::float::float_encode(&mut heap, &[f(1.5), s("f32le")], SPAN);
    assert!(matches!(pending, Ok(FloatEncoding::Narrow { bits, little: true }) if bits == 1.5f64.to_bits()));
}

#[test]
fn format_errors_name_the_format() {
    let error = hard_error(float_decode(&[bytes(&[0, 0, 0, 0]), s("f16le")], SPAN));
    assert_eq!(
        error.message,
        "std/float.decode format must be one of \"f32le\", \"f32be\", \"f64le\", \"f64be\", got \"f16le\""
    );
    let error = hard_error(float_encode(&[Value::Nil, s("f64le")], SPAN));
    assert_eq!(
        error.message,
        "std/float.encode first argument must be a float or one of the exact strings \"inf\", \"-inf\", \"nan\", got nil"
    );
    assert_eq!(error.span, SPAN);
}
