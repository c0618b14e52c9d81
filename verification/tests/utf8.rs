use simi::error::{NativeResult, RuntimeError};
use simi::heap::Heap;
use simi::native::utf8::{utf8_encode, utf8_decode};
use simi::span::Span;
use simi::value::{Bytes, FloatRepr, Value};

const SPAN: Span = Span { start: 2, end: 5 };

#[allow(dead_code)]
fn bytes(values: Vec<u8>) -> Value {
    Value::Bytes(Bytes::new(values))
}

#[allow(dead_code)]
fn float(x: f64) -> Value {
    Value::Float(FloatRepr::new(x.to_bits(), format!("{:?}", x)))
}

fn result(result: NativeResult) -> Value {
    result.unwrap().unwrap()
}

#[allow(dead_code)]
fn hard_error(result: NativeResult) -> RuntimeError {
    match result {
        Err(error) => error,
        Ok(Ok(value)) => panic!("expected hard error, got {:?}", value),
        Ok(Err(raised)) => panic!("expected hard error, got {:?}", raised),
    }
}

#[test]
fn encode_converts_string_to_bytes() {
    let mut heap = Heap::new();
    assert_eq!(
        result(utf8_encode(&mut heap, &[Value::String("abc".to_owned())], SPAN)).render(&heap),
        "bytes[61 62 63]"
    );
    assert_eq!(
        result(utf8_encode(&mut heap, &[Value::String("".to_owned())], SPAN)).render(&heap),
        "bytes[]"
    );
}

#[test]
fn decode_converts_valid_bytes_to_string() {
    let mut heap = Heap::new();
    assert_eq!(
        result(utf8_decode(&mut heap, &[bytes(vec![0x61, 0x62, 0x63])], SPAN)).render(&heap),
        "\"abc\""
    );
    assert_eq!(result(utf8_decode(&mut heap, &[bytes(vec![])], SPAN)).render(&heap), "\"\"");
    assert!(matches!(
        result(utf8_decode(&mut heap, &[bytes(vec![])], SPAN)),
        Value::String(_)
    ));
}

#[test]
fn decode_returns_nil_for_invalid_utf8() {
    let mut heap = Heap::new();
    // Invalid continuation byte
    assert!(matches!(
        result(utf8_decode(&mut heap, &[bytes(vec![0xFF])], SPAN)),
        Value::Nil
    ));
    // Overlong encoding
    assert!(matches!(
        result(utf8_decode(&mut heap, &[bytes(vec![0xC0, 0x80])], SPAN)),
        Value::Nil
    ));
    // Surrogate half encoded in UTF-8
    assert!(matches!(
        result(utf8_decode(&mut heap, &[bytes(vec![0xED, 0xA0, 0x80])], SPAN)),
        Value::Nil
    ));
    // Truncated multi-byte
    assert!(matches!(
        result(utf8_decode(&mut heap, &[bytes(vec![0xE2, 0x80])], SPAN)),
        Value::Nil
    ));
}

#[test]
fn unicode_codepoint_roundtrip() {
    let mut heap = Heap::new();
    let text = "aé🦀";
    let encoded = result(utf8_encode(&mut heap, &[Value::String(text.to_owned())], SPAN));
    let decoded = result(utf8_decode(&mut heap, &[encoded], SPAN));
    assert_eq!(decoded.render(&heap), format!("\"{text}\""));
}

#[test]
fn non_bmp_codepoints_encode_and_decode() {
    let mut heap = Heap::new();
    // U+1F600 grinning face, U+10FFFF max codepoint
    let text = "\u{1F600}\u{10FFFF}";
    let encoded = result(utf8_encode(&mut heap, &[Value::String(text.to_owned())], SPAN));
    assert!(matches!(
        result(utf8_decode(&mut heap, &[std::slice::from_ref(&encoded)[0].clone()],
            SPAN
        )),
        Value::String(_)
    ));
    let decoded = result(utf8_decode(&mut heap, &[encoded], SPAN));
    assert_eq!(decoded.render(&heap), format!("\"{text}\""));
}

#[test]
fn tests_invalid_arity_and_types_are_qualified_hard_errors() {
    let mut heap = Heap::new();
    let errors = [
        hard_error(utf8_encode(&mut heap, &[], SPAN)),
        hard_error(utf8_encode(&mut heap, &[Value::String("a".to_owned()), Value::String("b".to_owned())],
            SPAN,
        )),
        hard_error(utf8_encode(&mut heap, &[Value::Int(1)], SPAN)),
        hard_error(utf8_decode(&mut heap, &[], SPAN)),
        hard_error(utf8_decode(&mut heap, &[bytes(vec![]), bytes(vec![])], SPAN)),
        hard_error(utf8_decode(&mut heap, &[Value::Nil], SPAN)),
    ];

    for error in errors {
        assert!(error.message.starts_with("std/utf8."), "{}", error.message);
        assert_eq!(error.span, SPAN);
    }
}
