use simi::error::{NativeResult, RuntimeError};
use simi::heap::Heap;
use simi::native::utf16::{utf16_encode_le, utf16_encode_be, utf16_decode_le, utf16_decode_be};
use simi::span::Span;
use simi::value::{Bytes, FloatRepr, Value};

const SPAN: Span = Span { start: 2, end: 5 };

#[allow(dead_code)]
fn bytes(values: Vec<u8>) -> Value {
    Value::Bytes(Bytes::new(values))
}

#[allow(dead_code)]
fn float(x: f64) -> Value {
    Value::Float(FloatRepr::new(x.to_bits(), format!("{:?}", x)))
}

fn result(result: NativeResult) -> Value {
    result.unwrap().unwrap()
}

#[allow(dead_code)]
fn hard_error(result: NativeResult) -> RuntimeError {
    match result {
        Err(error) => error,
        Ok(Ok(value)) => panic!("expected hard error, got {:?}", value),
        Ok(Err(raised)) => panic!("expected hard error, got {:?}", raised),
    }
}

#[test]
fn encode_le_converts_string_to_little_endian_bytes() {
    let mut heap = Heap::new();
    let encoded = result(utf16_encode_le(&mut heap, &[Value::String("a".to_owned())], SPAN));
    assert_eq!(encoded.render(&heap), "bytes[61 00]");
}

#[test]
fn encode_be_converts_string_to_big_endian_bytes() {
    let mut heap = Heap::new();
    let encoded = result(utf16_encode_be(&mut heap, &[Value::String("a".to_owned())], SPAN));
    assert_eq!(encoded.render(&heap), "bytes[00 61]");
}

#[test]
fn empty_string_encodes_to_empty_bytes() {
    let mut heap = Heap::new();
    let encoded = result(utf16_encode_le(&mut heap, &[Value::String("".to_owned())], SPAN));
    assert_eq!(encoded.render(&heap), "bytes[]");
    let encoded = result(utf16_encode_be(&mut heap, &[Value::String("".to_owned())], SPAN));
    assert_eq!(encoded.render(&heap), "bytes[]");
}

#[test]
fn decode_valid_utf16_both_endiannesses() {
    let mut heap = Heap::new();
    // "abc" little-endian
    let le = bytes(vec![0x61, 0x00, 0x62, 0x00, 0x63, 0x00]);
    assert_eq!(result(utf16_decode_le(&mut heap, &[le], SPAN)).render(&heap), "\"abc\"");

    // "abc" big-endian
    let be = bytes(vec![0x00, 0x61, 0x00, 0x62, 0x00, 0x63]);
    assert_eq!(result(utf16_decode_be(&mut heap, &[be], SPAN)).render(&heap), "\"abc\"");
}

#[test]
fn empty_bytes_decode_to_empty_string() {
    let mut heap = Heap::new();
    let decoded = result(utf16_decode_le(&mut heap, &[bytes(vec![])], SPAN));
    assert_eq!(decoded.render(&heap), "\"\"");
    let decoded = result(utf16_decode_be(&mut heap, &[bytes(vec![])], SPAN));
    assert_eq!(decoded.render(&heap), "\"\"");
}

// --- unicode roundtrip ---

#[test]
fn unicode_roundtrip_both_endiannesses() {
    let mut heap = Heap::new();
    let text = "aé🦀";
    // Little-endian roundtrip
    let encoded = result(utf16_encode_le(&mut heap, &[Value::String(text.to_owned())], SPAN));
    let decoded = result(utf16_decode_le(&mut heap, &[encoded], SPAN));
    assert_eq!(decoded.render(&heap), format!("\"{text}\""));

    // Big-endian roundtrip
    let encoded = result(utf16_encode_be(&mut heap, &[Value::String(text.to_owned())], SPAN));
    let decoded = result(utf16_decode_be(&mut heap, &[encoded], SPAN));
    assert_eq!(decoded.render(&heap), format!("\"{text}\""));
}

#[test]
fn non_bmp_surrogate_pair_roundtrips() {
    let mut heap = Heap::new();
    // U+1F600 grinning face
    let text = "\u{1F600}";
    // '😀' encodes as surrogate pair D83D DE00 in UTF-16
    let encoded = result(utf16_encode_le(&mut heap, &[Value::String(text.to_owned())], SPAN));
    // Little-endian: 3D D8 00 DE
    assert_eq!(encoded.render(&heap), "bytes[3d d8 00 de]");
    let decoded = result(utf16_decode_le(&mut heap, &[encoded], SPAN));
    assert_eq!(decoded.render(&heap), "\"😀\"");

    // Big-endian
    let encoded_be = result(utf16_encode_be(&mut heap, &[Value::String(text.to_owned())], SPAN));
    assert_eq!(encoded_be.render(&heap), "bytes[d8 3d de 00]");
    let decoded_be = result(utf16_decode_be(&mut heap, &[encoded_be], SPAN));
    assert_eq!(decoded_be.render(&heap), "\"😀\"");
}

// --- endianness independence ---

#[test]
fn endianness_distinction_is_preserved() {
    let mut heap = Heap::new();
    let text = "\u{0041}\u{0042}"; // AB in BMP
    let le = result(utf16_encode_le(&mut heap, &[Value::String(text.to_owned())], SPAN));
    let be = result(utf16_encode_be(&mut heap, &[Value::String(text.to_owned())], SPAN));
    // Little-endian "AB": 41 00 42 00
    // Big-endian "AB":    00 41 00 42
    assert_ne!(le.render(&heap), be.render(&heap));

    // Cross-decoding endianness produces garbage or nil
    let cross_le = utf16_decode_le(&mut heap, &[be], SPAN);
    let cross_be = utf16_decode_be(&mut heap, &[le], SPAN);

    // Each cross-decode either returns nil or some wrong string
    if let Ok(Ok(v)) = cross_le {
        assert_ne!(v.render(&heap), "\"AB\"");
    }
    if let Ok(Ok(v)) = cross_be {
        assert_ne!(v.render(&heap), "\"AB\"");
    }
}

// --- malformed input ---

#[test]
fn odd_length_bytes_returns_nil() {
    let mut heap = Heap::new();
    let odd = bytes(vec![0x41]); // single byte, not a complete u16
    assert!(matches!(
        result(utf16_decode_le(&mut heap, std::slice::from_ref(&odd), SPAN)),
        Value::Nil
    ));
    assert!(matches!(result(utf16_decode_be(&mut heap, &[odd], SPAN)), Value::Nil));
}

#[test]
fn unpaired_surrogates_return_nil() {
    let mut heap = Heap::new();
    // Lone high surrogate D800 (little-endian)
    let lone_high_le = bytes(vec![0x00, 0xD8]);
    assert!(matches!(
        result(utf16_decode_le(&mut heap, &[lone_high_le], SPAN)),
        Value::Nil
    ));

    // Lone high surrogate D800 (big-endian)
    let lone_high_be = bytes(vec![0xD8, 0x00]);
    assert!(matches!(
        result(utf16_decode_be(&mut heap, &[lone_high_be], SPAN)),
        Value::Nil
    ));

    // Lone low surrogate DC00 (little-endian)
    let lone_low_le = bytes(vec![0x00, 0xDC]);
    assert!(matches!(
        result(utf16_decode_le(&mut heap, &[lone_low_le], SPAN)),
        Value::Nil
    ));

    // High surrogate followed by non-surrogate (broken pair)
    let broken_pair_le = bytes(vec![0x00, 0xD8, 0x41, 0x00]); // D800 + 'A'
    assert!(matches!(
        result(utf16_decode_le(&mut heap, &[broken_pair_le], SPAN)),
        Value::Nil
    ));
}

// --- BOM preservation ---

#[test]
fn bom_is_preserved_as_regular_codepoint() {
    let mut heap = Heap::new();
    // U+FEFF BOM
    let text = "\u{FEFF}";
    let encoded_le = result(utf16_encode_le(&mut heap, &[Value::String(text.to_owned())], SPAN));
    // Little-endian: FF FE
    assert_eq!(encoded_le.render(&heap), "bytes[ff fe]");

    let decoded = result(utf16_decode_le(&mut heap, &[encoded_le], SPAN));
    assert_eq!(decoded.render(&heap), "\"\u{FEFF}\"");

    // Same for big-endian
    let encoded_be = result(utf16_encode_be(&mut heap, &[Value::String(text.to_owned())], SPAN));
    assert_eq!(encoded_be.render(&heap), "bytes[fe ff]");
    let decoded_be = result(utf16_decode_be(&mut heap, &[encoded_be], SPAN));
    assert_eq!(decoded_be.render(&heap), "\"\u{FEFF}\"");
}

#[test]
fn bom_in_middle_of_string_is_preserved() {
    let mut heap = Heap::new();
    let text = "a\u{FEFF}b";
    let encoded = result(utf16_encode_le(&mut heap, &[Value::String(text.to_owned())], SPAN));
    let decoded = result(utf16_decode_le(&mut heap, &[encoded], SPAN));
    assert_eq!(decoded.render(&heap), "\"a\u{FEFF}b\"");
}

// --- hard diagnostics ---

#[test]
fn invalid_arity_and_types_are_qualified_hard_errors() {
    let mut heap = Heap::new();
    let errors = [
        hard_error(utf16_encode_le(&mut heap, &[], SPAN)),
        hard_error(utf16_encode_le(&mut heap, &[Value::String("a".to_owned()), Value::String("b".to_owned())],
            SPAN,
        )),
        hard_error(utf16_encode_le(&mut heap, &[Value::Int(1)], SPAN)),
        hard_error(utf16_encode_be(&mut heap, &[], SPAN)),
        hard_error(utf16_encode_be(&mut heap, &[Value::Nil], SPAN)),
        hard_error(utf16_decode_le(&mut heap, &[], SPAN)),
        hard_error(utf16_decode_le(&mut heap, &[Value::String("x".to_owned())], SPAN)),
        hard_error(utf16_decode_be(&mut heap, &[], SPAN)),
        hard_error(utf16_decode_be(&mut heap, &[Value::Int(0)], SPAN)),
    ];

    for error in errors {
        assert!(error.message.starts_with("std/utf16."), "{}", error.message);
        assert_eq!(error.span, SPAN);
    }
}
