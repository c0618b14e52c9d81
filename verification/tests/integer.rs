use simi::error::{NativeResult, RuntimeError};
use simi::heap::Heap;
use simi::native::integer::{integer_decode, integer_encode, parse_format};
use simi::span::Span;
use simi::value::{Bytes, FloatRepr, Value};

const SPAN: Span = Span { start: 2, end: 5 };

#[allow(dead_code)]
fn bytes(values: Vec<u8>) -> Value {
    Value::Bytes(Bytes::new(values))
}

#[allow(dead_code)]
fn float(x: f64) -> Value {
    Value::Float(FloatRepr::new(x.to_bits(), format!("{:?}", x)))
}

fn result(result: NativeResult) -> Value {
    result.unwrap().unwrap()
}

#[allow(dead_code)]
fn hard_error(result: NativeResult) -> RuntimeError {
    match result {
        Err(error) => error,
        Ok(Ok(value)) => panic!("expected hard error, got {:?}", value),
        Ok(Err(raised)) => panic!("expected hard error, got {:?}", raised),
    }
}

#[test]
fn encode_signed_8bit_extrema() {
    let mut heap = Heap::new();
    assert_eq!(
        result(integer_encode(&mut heap, &[Value::Int(0), Value::String("i8le".to_owned())],
            SPAN,
        ))
        .render(&heap),
        "bytes[00]"
    );
    assert_eq!(
        result(integer_encode(&mut heap, &[Value::Int(0), Value::String("i8be".to_owned())],
            SPAN,
        ))
        .render(&heap),
        "bytes[00]"
    );
    assert_eq!(
        result(integer_encode(&mut heap, &[Value::Int(127), Value::String("i8le".to_owned())],
            SPAN,
        ))
        .render(&heap),
        "bytes[7f]"
    );
    assert_eq!(
        result(integer_encode(&mut heap, &[Value::Int(-128), Value::String("i8le".to_owned())],
            SPAN,
        ))
        .render(&heap),
        "bytes[80]"
    );
    assert_eq!(
        result(integer_encode(&mut heap, &[Value::Int(-1), Value::String("i8le".to_owned())],
            SPAN,
        ))
        .render(&heap),
        "bytes[ff]"
    );
    assert_eq!(
        result(integer_encode(&mut heap, &[Value::Int(-1), Value::String("i8be".to_owned())],
            SPAN,
        ))
        .render(&heap),
        "bytes[ff]"
    );
}

#[test]
fn encode_unsigned_8bit_extrema() {
    let mut heap = Heap::new();
    assert_eq!(
        result(integer_encode(&mut heap, &[Value::Int(0), Value::String("u8le".to_owned())],
            SPAN,
        ))
        .render(&heap),
        "bytes[00]"
    );
    assert_eq!(
        result(integer_encode(&mut heap, &[Value::Int(255), Value::String("u8le".to_owned())],
            SPAN,
        ))
        .render(&heap),
        "bytes[ff]"
    );
    assert_eq!(
        result(integer_encode(&mut heap, &[Value::Int(255), Value::String("u8be".to_owned())],
            SPAN,
        ))
        .render(&heap),
        "bytes[ff]"
    );
}

#[test]
fn encode_signed_16bit_extrema() {
    let mut heap = Heap::new();
    assert_eq!(
        result(integer_encode(&mut heap, &[Value::Int(0), Value::String("i16le".to_owned())],
            SPAN,
        ))
        .render(&heap),
        "bytes[00 00]"
    );
    assert_eq!(
        result(integer_encode(&mut heap, &[Value::Int(32767), Value::String("i16le".to_owned())],
            SPAN,
        ))
        .render(&heap),
        "bytes[ff 7f]"
    );
    assert_eq!(
        result(integer_encode(&mut heap, &[Value::Int(32767), Value::String("i16be".to_owned())],
            SPAN,
        ))
        .render(&heap),
        "bytes[7f ff]"
    );
    assert_eq!(
        result(integer_encode(&mut heap, &[Value::Int(-32768), Value::String("i16le".to_owned())],
            SPAN,
        ))
        .render(&heap),
        "bytes[00 80]"
    );
    assert_eq!(
        result(integer_encode(&mut heap, &[Value::Int(-1), Value::String("i16le".to_owned())],
            SPAN,
        ))
        .render(&heap),
        "bytes[ff ff]"
    );
    assert_eq!(
        result(integer_encode(&mut heap, &[Value::Int(-1), Value::String("i16be".to_owned())],
            SPAN,
        ))
        .render(&heap),
        "bytes[ff ff]"
    );
}

#[test]
fn encode_unsigned_16bit_extrema() {
    let mut heap = Heap::new();
    assert_eq!(
        result(integer_encode(&mut heap, &[Value::Int(0), Value::String("u16le".to_owned())],
            SPAN,
        ))
        .render(&heap),
        "bytes[00 00]"
    );
    assert_eq!(
        result(integer_encode(&mut heap, &[Value::Int(65535), Value::String("u16le".to_owned())],
            SPAN,
        ))
        .render(&heap),
        "bytes[ff ff]"
    );
    assert_eq!(
        result(integer_encode(&mut heap, &[Value::Int(65535), Value::String("u16be".to_owned())],
            SPAN,
        ))
        .render(&heap),
        "bytes[ff ff]"
    );
}

#[test]
fn encode_signed_32bit_extrema() {
    let mut heap = Heap::new();
    assert_eq!(
        result(integer_encode(&mut heap, &[Value::Int(0), Value::String("i32le".to_owned())],
            SPAN,
        ))
        .render(&heap),
        "bytes[00 00 00 00]"
    );
    assert_eq!(
        result(integer_encode(&mut heap, &[Value::Int(2_147_483_647), Value::String("i32le".to_owned()),],
            SPAN,
        ))
        .render(&heap),
        "bytes[ff ff ff 7f]"
    );
    assert_eq!(
        result(integer_encode(&mut heap, &[Value::Int(2_147_483_647), Value::String("i32be".to_owned()),],
            SPAN,
        ))
        .render(&heap),
        "bytes[7f ff ff ff]"
    );
    assert_eq!(
        result(integer_encode(&mut heap, &[
                Value::Int(-2_147_483_648),
                Value::String("i32le".to_owned()),
            ],
            SPAN,
        ))
        .render(&heap),
        "bytes[00 00 00 80]"
    );
    assert_eq!(
        result(integer_encode(&mut heap, &[Value::Int(-1), Value::String("i32le".to_owned())],
            SPAN,
        ))
        .render(&heap),
        "bytes[ff ff ff ff]"
    );
}

#[test]
fn encode_unsigned_32bit_extrema() {
    let mut heap = Heap::new();
    assert_eq!(
        result(integer_encode(&mut heap, &[Value::Int(0), Value::String("u32le".to_owned())],
            SPAN,
        ))
        .render(&heap),
        "bytes[00 00 00 00]"
    );
    assert_eq!(
        result(integer_encode(&mut heap, &[
                Value::Int(4_294_967_295_i64),
                Value::String("u32le".to_owned()),
            ],
            SPAN,
        ))
        .render(&heap),
        "bytes[ff ff ff ff]"
    );
    assert_eq!(
        result(integer_encode(&mut heap, &[
                Value::Int(4_294_967_295_i64),
                Value::String("u32be".to_owned()),
            ],
            SPAN,
        ))
        .render(&heap),
        "bytes[ff ff ff ff]"
    );
}

#[test]
fn encode_signed_64bit_extrema() {
    let mut heap = Heap::new();
    assert_eq!(
        result(integer_encode(&mut heap, &[Value::Int(0), Value::String("i64le".to_owned())],
            SPAN,
        ))
        .render(&heap),
        "bytes[00 00 00 00 00 00 00 00]"
    );
    assert_eq!(
        result(integer_encode(&mut heap, &[Value::Int(i64::MAX), Value::String("i64le".to_owned()),],
            SPAN,
        ))
        .render(&heap),
        "bytes[ff ff ff ff ff ff ff 7f]"
    );
    assert_eq!(
        result(integer_encode(&mut heap, &[Value::Int(i64::MAX), Value::String("i64be".to_owned()),],
            SPAN,
        ))
        .render(&heap),
        "bytes[7f ff ff ff ff ff ff ff]"
    );
    assert_eq!(
        result(integer_encode(&mut heap, &[Value::Int(i64::MIN), Value::String("i64le".to_owned()),],
            SPAN,
        ))
        .render(&heap),
        "bytes[00 00 00 00 00 00 00 80]"
    );
    assert_eq!(
        result(integer_encode(&mut heap, &[Value::Int(-1), Value::String("i64le".to_owned()),],
            SPAN,
        ))
        .render(&heap),
        "bytes[ff ff ff ff ff ff ff ff]"
    );
}

#[test]
fn encode_unsigned_64bit_values() {
    let mut heap = Heap::new();
    // u64 values within i64 range
    assert_eq!(
        result(integer_encode(&mut heap, &[Value::Int(0), Value::String("u64le".to_owned())],
            SPAN,
        ))
        .render(&heap),
        "bytes[00 00 00 00 00 00 00 00]"
    );
    assert_eq!(
        result(integer_encode(&mut heap, &[Value::Int(i64::MAX), Value::String("u64le".to_owned()),],
            SPAN,
        ))
        .render(&heap),
        "bytes[ff ff ff ff ff ff ff 7f]"
    );
    assert_eq!(
        result(integer_encode(&mut heap, &[Value::Int(i64::MAX), Value::String("u64be".to_owned()),],
            SPAN,
        ))
        .render(&heap),
        "bytes[7f ff ff ff ff ff ff ff]"
    );
}

#[test]
fn encode_range_errors() {
    let mut heap = Heap::new();
    let error = hard_error(integer_encode(&mut heap, &[Value::Int(128), Value::String("i8le".to_owned())],
        SPAN,
    ));
    assert!(
        error
            .message
            .starts_with("std/integer.encode value 128 is out of range"),
        "{}",
        error.message
    );

    let error = hard_error(integer_encode(&mut heap, &[Value::Int(-129), Value::String("i8le".to_owned())],
        SPAN,
    ));
    assert!(
        error
            .message
            .starts_with("std/integer.encode value -129 is out of range"),
        "{}",
        error.message
    );

    let error = hard_error(integer_encode(&mut heap, &[Value::Int(-1), Value::String("u8le".to_owned())],
        SPAN,
    ));
    assert!(
        error
            .message
            .starts_with("std/integer.encode value -1 is out of range"),
        "{}",
        error.message
    );

    let error = hard_error(integer_encode(&mut heap, &[Value::Int(256), Value::String("u8le".to_owned())],
        SPAN,
    ));
    assert!(
        error
            .message
            .starts_with("std/integer.encode value 256 is out of range"),
        "{}",
        error.message
    );

    let error = hard_error(integer_encode(&mut heap, &[Value::Int(65536), Value::String("u16le".to_owned())],
        SPAN,
    ));
    assert!(
        error
            .message
            .starts_with("std/integer.encode value 65536 is out of range"),
        "{}",
        error.message
    );

    let error = hard_error(integer_encode(&mut heap, &[Value::Int(-1), Value::String("u32le".to_owned())],
        SPAN,
    ));
    assert!(
        error
            .message
            .starts_with("std/integer.encode value -1 is out of range"),
        "{}",
        error.message
    );

    let error = hard_error(integer_encode(&mut heap, &[Value::Int(-1), Value::String("u64le".to_owned())],
        SPAN,
    ));
    assert!(
        error
            .message
            .starts_with("std/integer.encode value -1 is out of range"),
        "{}",
        error.message
    );
}

// ---------------------------------------------------------------------------
// decode tests
// ---------------------------------------------------------------------------

#[test]
fn decode_signed_8bit_extrema() {
    let mut heap = Heap::new();
    assert_eq!(
        result(integer_decode(&mut heap, &[bytes(vec![0x00]), Value::String("i8le".to_owned())],
            SPAN,
        ))
        .render(&heap),
        "0"
    );
    assert_eq!(
        result(integer_decode(&mut heap, &[bytes(vec![0x7f]), Value::String("i8le".to_owned())],
            SPAN,
        ))
        .render(&heap),
        "127"
    );
    assert_eq!(
        result(integer_decode(&mut heap, &[bytes(vec![0x80]), Value::String("i8le".to_owned())],
            SPAN,
        ))
        .render(&heap),
        "-128"
    );
    assert_eq!(
        result(integer_decode(&mut heap, &[bytes(vec![0xff]), Value::String("i8le".to_owned())],
            SPAN,
        ))
        .render(&heap),
        "-1"
    );
}

#[test]
fn decode_unsigned_8bit_extrema() {
    let mut heap = Heap::new();
    assert_eq!(
        result(integer_decode(&mut heap, &[bytes(vec![0x00]), Value::String("u8le".to_owned())],
            SPAN,
        ))
        .render(&heap),
        "0"
    );
    assert_eq!(
        result(integer_decode(&mut heap, &[bytes(vec![0xff]), Value::String("u8le".to_owned())],
            SPAN,
        ))
        .render(&heap),
        "255"
    );
}

#[test]
fn decode_signed_16bit_le() {
    let mut heap = Heap::new();
    assert_eq!(
        result(integer_decode(&mut heap, &[bytes(vec![0x00, 0x00]), Value::String("i16le".to_owned()),],
            SPAN,
        ))
        .render(&heap),
        "0"
    );
    assert_eq!(
        result(integer_decode(&mut heap, &[bytes(vec![0xff, 0x7f]), Value::String("i16le".to_owned()),],
            SPAN,
        ))
        .render(&heap),
        "32767"
    );
    assert_eq!(
        result(integer_decode(&mut heap, &[bytes(vec![0x00, 0x80]), Value::String("i16le".to_owned()),],
            SPAN,
        ))
        .render(&heap),
        "-32768"
    );
    assert_eq!(
        result(integer_decode(&mut heap, &[bytes(vec![0xff, 0xff]), Value::String("i16le".to_owned()),],
            SPAN,
        ))
        .render(&heap),
        "-1"
    );
}

#[test]
fn decode_signed_16bit_be() {
    let mut heap = Heap::new();
    assert_eq!(
        result(integer_decode(&mut heap, &[bytes(vec![0x7f, 0xff]), Value::String("i16be".to_owned()),],
            SPAN,
        ))
        .render(&heap),
        "32767"
    );
    assert_eq!(
        result(integer_decode(&mut heap, &[bytes(vec![0xff, 0xff]), Value::String("i16be".to_owned()),],
            SPAN,
        ))
        .render(&heap),
        "-1"
    );
}

#[test]
fn decode_unsigned_16bit() {
    let mut heap = Heap::new();
    assert_eq!(
        result(integer_decode(&mut heap, &[bytes(vec![0xff, 0xff]), Value::String("u16le".to_owned()),],
            SPAN,
        ))
        .render(&heap),
        "65535"
    );
    assert_eq!(
        result(integer_decode(&mut heap, &[bytes(vec![0xff, 0xff]), Value::String("u16be".to_owned()),],
            SPAN,
        ))
        .render(&heap),
        "65535"
    );
}

#[test]
fn decode_signed_32bit_extrema() {
    let mut heap = Heap::new();
    assert_eq!(
        result(integer_decode(&mut heap, &[
                bytes(vec![0x00, 0x00, 0x00, 0x00]),
                Value::String("i32le".to_owned()),
            ],
            SPAN,
        ))
        .render(&heap),
        "0"
    );
    // i32 MAX (2_147_483_647) → bytes[ff ff ff 7f] le, [7f ff ff ff] be
    assert_eq!(
        result(integer_decode(&mut heap, &[
                bytes(vec![0xff, 0xff, 0xff, 0x7f]),
                Value::String("i32le".to_owned()),
            ],
            SPAN,
        ))
        .render(&heap),
        "2147483647"
    );
    assert_eq!(
        result(integer_decode(&mut heap, &[
                bytes(vec![0x7f, 0xff, 0xff, 0xff]),
                Value::String("i32be".to_owned()),
            ],
            SPAN,
        ))
        .render(&heap),
        "2147483647"
    );
    // i32 MIN (-2_147_483_648) → bytes[00 00 00 80] le
    assert_eq!(
        result(integer_decode(&mut heap, &[
                bytes(vec![0x00, 0x00, 0x00, 0x80]),
                Value::String("i32le".to_owned()),
            ],
            SPAN,
        ))
        .render(&heap),
        "-2147483648"
    );
    assert_eq!(
        result(integer_decode(&mut heap, &[
                bytes(vec![0xff, 0xff, 0xff, 0xff]),
                Value::String("i32le".to_owned()),
            ],
            SPAN,
        ))
        .render(&heap),
        "-1"
    );
}

#[test]
fn decode_unsigned_32bit() {
    let mut heap = Heap::new();
    assert_eq!(
        result(integer_decode(&mut heap, &[
                bytes(vec![0xff, 0xff, 0xff, 0xff]),
                Value::String("u32le".to_owned()),
            ],
            SPAN,
        ))
        .render(&heap),
        "4294967295"
    );
}

#[test]
fn decode_signed_64bit_extrema() {
    let mut heap = Heap::new();
    assert_eq!(
        result(integer_decode(&mut heap, &[
                bytes(vec![0x00, 0x00, 0x00, 0x00, 0x00, 0x00, 0x00, 0x00]),
                Value::String("i64le".to_owned()),
            ],
            SPAN,
        ))
        .render(&heap),
        "0"
    );
    // i64 MAX
    assert_eq!(
        result(integer_decode(&mut heap, &[
                bytes(vec![0xff, 0xff, 0xff, 0xff, 0xff, 0xff, 0xff, 0x7f]),
                Value::String("i64le".to_owned()),
            ],
            SPAN,
        ))
        .render(&heap),
        "9223372036854775807"
    );
    // i64 MIN
    assert_eq!(
        result(integer_decode(&mut heap, &[
                bytes(vec![0x00, 0x00, 0x00, 0x00, 0x00, 0x00, 0x00, 0x80]),
                Value::String("i64le".to_owned()),
            ],
            SPAN,
        ))
        .render(&heap),
        "-9223372036854775808"
    );
    assert_eq!(
        result(integer_decode(&mut heap, &[
                bytes(vec![0xff, 0xff, 0xff, 0xff, 0xff, 0xff, 0xff, 0xff]),
                Value::String("i64le".to_owned()),
            ],
            SPAN,
        ))
        .render(&heap),
        "-1"
    );
}

#[test]
fn decode_unsigned_64bit_boundary() {
    let mut heap = Heap::new();
    // u64 value = u64::MAX (which exceeds i64::MAX) → hard diagnostic
    let error = hard_error(integer_decode(&mut heap, &[
            bytes(vec![0xff, 0xff, 0xff, 0xff, 0xff, 0xff, 0xff, 0xff]),
            Value::String("u64le".to_owned()),
        ],
        SPAN,
    ));
    assert!(
        error
            .message
            .starts_with("std/integer.decode decoded value 18446744073709551615 exceeds i64"),
        "{}",
        error.message
    );

    // u64 value = i64::MAX + 1 → hard diagnostic
    let error = hard_error(integer_decode(&mut heap, &[
            bytes(vec![0x00, 0x00, 0x00, 0x00, 0x00, 0x00, 0x00, 0x80]),
            Value::String("u64le".to_owned()),
        ],
        SPAN,
    ));
    assert!(
        error
            .message
            .starts_with("std/integer.decode decoded value"),
        "{}",
        error.message
    );
}

#[test]
fn decode_wrong_byte_length_returns_nil() {
    let mut heap = Heap::new();
    // i8le expects 1 byte; 0 bytes → nil
    assert!(matches!(
        result(integer_decode(&mut heap, &[bytes(vec![]), Value::String("i8le".to_owned())],
            SPAN,
        )),
        Value::Nil
    ));
    // i16le expects 2 bytes; 1 byte → nil
    assert!(matches!(
        result(integer_decode(&mut heap, &[bytes(vec![0x00]), Value::String("i16le".to_owned())],
            SPAN,
        )),
        Value::Nil
    ));
    // i32le expects 4 bytes; 3 bytes → nil
    assert!(matches!(
        result(integer_decode(&mut heap, &[
                bytes(vec![0x00, 0x00, 0x00]),
                Value::String("i32le".to_owned()),
            ],
            SPAN,
        )),
        Value::Nil
    ));
    // i64le expects 8 bytes; 9 bytes → nil
    assert!(matches!(
        result(integer_decode(&mut heap, &[
                bytes(vec![0x00, 0x00, 0x00, 0x00, 0x00, 0x00, 0x00, 0x00, 0x00]),
                Value::String("i64le".to_owned()),
            ],
            SPAN,
        )),
        Value::Nil
    ));
}

// ---------------------------------------------------------------------------
// diagnostic tests
// ---------------------------------------------------------------------------

#[test]
fn unknown_format_is_hard_error() {
    let mut heap = Heap::new();
    let error = hard_error(integer_encode(&mut heap, &[Value::Int(0), Value::String("bad".to_owned())],
        SPAN,
    ));
    assert!(
        error
            .message
            .starts_with("std/integer.encode unknown format"),
        "{}",
        error.message
    );

    let error = hard_error(integer_decode(&mut heap, &[bytes(vec![]), Value::String("bad".to_owned())],
        SPAN,
    ));
    assert!(
        error
            .message
            .starts_with("std/integer.decode unknown format"),
        "{}",
        error.message
    );
}

#[test]
fn wrong_arity_is_hard_error() {
    let mut heap = Heap::new();
    let error = hard_error(integer_encode(&mut heap, &[], SPAN));
    assert_eq!(
        error.message,
        "std/integer.encode expects 2 arguments, got 0"
    );

    let error = hard_error(integer_encode(&mut heap, &[Value::Int(0)], SPAN));
    assert_eq!(
        error.message,
        "std/integer.encode expects 2 arguments, got 1"
    );

    let error = hard_error(integer_decode(&mut heap, &[], SPAN));
    assert_eq!(
        error.message,
        "std/integer.decode expects 2 arguments, got 0"
    );

    let error = hard_error(integer_decode(&mut heap, &[bytes(vec![]), Value::String("i8le".to_owned()), Value::Nil],
        SPAN,
    ));
    assert_eq!(
        error.message,
        "std/integer.decode expects 2 arguments, got 3"
    );
}

#[test]
fn invalid_argument_categories_are_hard_errors() {
    let mut heap = Heap::new();
    let error = hard_error(integer_encode(&mut heap, &[float(0.0), Value::String("i8le".to_owned())],
        SPAN,
    ));
    assert!(
        error
            .message
            .starts_with("std/integer.encode value must be an integer"),
        "{}",
        error.message
    );

    let error = hard_error(integer_encode(&mut heap, &[Value::Int(0), Value::Nil], SPAN));
    assert!(
        error
            .message
            .starts_with("std/integer.encode format must be a string"),
        "{}",
        error.message
    );

    let error = hard_error(integer_decode(&mut heap, &[Value::Int(0), Value::String("i8le".to_owned())],
        SPAN,
    ));
    assert!(
        error
            .message
            .starts_with("std/integer.decode data must be bytes"),
        "{}",
        error.message
    );

    let error = hard_error(integer_decode(&mut heap, &[bytes(vec![]), float(0.0)], SPAN));
    assert!(
        error
            .message
            .starts_with("std/integer.decode format must be a string"),
        "{}",
        error.message
    );
}

#[test]
fn all_error_messages_are_qualified() {
    let mut heap = Heap::new();
    // encode range errors
    let error = hard_error(integer_encode(&mut heap, &[Value::Int(256), Value::String("u8le".to_owned())],
        SPAN,
    ));
    assert!(
        error.message.starts_with("std/integer."),
        "{}",
        error.message
    );

    // unknown format
    let error = hard_error(integer_encode(&mut heap, &[Value::Int(0), Value::String("nope".to_owned())],
        SPAN,
    ));
    assert!(
        error.message.starts_with("std/integer."),
        "{}",
        error.message
    );

    // wrong arity
    let error = hard_error(integer_decode(&mut heap, &[Value::Int(0)], SPAN));
    assert!(
        error.message.starts_with("std/integer."),
        "{}",
        error.message
    );

    // wrong category
    let error = hard_error(integer_decode(&mut heap, &[Value::Nil, Value::String("i8le".to_owned())],
        SPAN,
    ));
    assert!(
        error.message.starts_with("std/integer."),
        "{}",
        error.message
    );

    // u64 decode boundary
    let error = hard_error(integer_decode(&mut heap, &[
            bytes(vec![0xff, 0xff, 0xff, 0xff, 0xff, 0xff, 0xff, 0xff]),
            Value::String("u64le".to_owned()),
        ],
        SPAN,
    ));
    assert!(
        error.message.starts_with("std/integer."),
        "{}",
        error.message
    );
}

#[test]
fn format_names_parse_or_name_the_function_in_the_error() {
    let format = parse_format("decode", "u16be", SPAN).unwrap();
    assert!(!format.signed && format.width == 2 && !format.little);
    let format = parse_format("encode", "i64le", SPAN).unwrap();
    assert!(format.signed && format.width == 8 && format.little);
    let error = parse_format("encode", "i12le", SPAN).unwrap_err();
    assert_eq!(error.message, "std/integer.encode unknown format \"i12le\"");
    assert_eq!(error.span, SPAN);
}
