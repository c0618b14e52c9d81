use simi::heap::Heap;
use simi::native::integer::{integer_decode, integer_encode};
use simi::native::utf16::{utf16_decode_be, utf16_decode_le, utf16_encode_be, utf16_encode_le};
use simi::native::utf8::{utf8_decode, utf8_encode};
use simi::span::Span;
use simi::value::Value;

fn span() -> Span {
    Span::new(0, 0)
}

#[test]
fn integers_decode_to_what_they_encode() {
    let mut heap = Heap::new();
    let cases: [(&str, &[i64]); 8] = [
        ("i8le", &[-128, -1, 0, 1, 127]),
        ("u8be", &[0, 200, 255]),
        ("i16be", &[-32768, -2, 300, 32767]),
        ("u16le", &[0, 65535]),
        ("i32le", &[i32::MIN as i64, -70000, 70000, i32::MAX as i64]),
        ("u32be", &[0, 4294967295]),
        ("i64be", &[i64::MIN, -1, 0, i64::MAX]),
        ("u64le", &[0, 1 << 40, i64::MAX]),
    ];
    for (format, values) in cases {
        for &value in values {
            let encoded = integer_encode(
                &mut heap,
                &[Value::Int(value), Value::String(format.to_owned())],
                span(),
            )
            .unwrap()
            .unwrap();
            let decoded = integer_decode(&mut heap, &[encoded, Value::String(format.to_owned())], span())
                .unwrap()
                .unwrap();
            assert!(matches!(decoded, Value::Int(v) if v == value), "{format} {value}");
        }
    }
}

#[test]
fn text_decodes_to_what_it_encodes() {
    let mut heap = Heap::new();
    for text in ["", "a", "aé🦀", "\u{FEFF}x", "\u{10FFFF}"] {
        let string = Value::String(text.to_owned());
        let le = utf16_encode_le(&mut heap, &[string.clone()], span()).unwrap().unwrap();
        let be = utf16_encode_be(&mut heap, &[string.clone()], span()).unwrap().unwrap();
        let u8s = utf8_encode(&mut heap, &[string.clone()], span()).unwrap().unwrap();
        for decoded in [
            utf16_decode_le(&mut heap, &[le], span()),
            utf16_decode_be(&mut heap, &[be], span()),
            utf8_decode(&mut heap, &[u8s], span()),
        ] {
            assert!(matches!(decoded.unwrap().unwrap(), Value::String(s) if s == text));
        }
    }
}
