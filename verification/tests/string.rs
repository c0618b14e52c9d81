use simi::error::{NativeResult, RuntimeError};
use simi::heap::Heap;
use simi::native::string::{
    string_contains, string_ends_with, string_length, string_lower, string_slice, string_split,
    string_starts_with, string_trim, string_upper,
};
use simi::span::Span;
use simi::value::{FloatRepr, Value};

const SPAN: Span = Span { start: 2, end: 5 };

fn string(value: &str) -> Value {
    Value::String(value.to_owned())
}

fn float(x: f64) -> Value {
    Value::Float(FloatRepr::new(x.to_bits(), format!("{:?}", x)))
}

fn result(result: NativeResult) -> Value {
    result.unwrap().unwrap()
}

fn hard_error(result: NativeResult) -> RuntimeError {
    match result {
        Err(error) => error,
        Ok(Ok(value)) => panic!("expected hard error, got {:?}", value),
        Ok(Err(raised)) => panic!("expected hard error, got {:?}", raised),
    }
}

#[test]
fn length_and_slice_count_unicode_scalar_values() {
    let mut heap = Heap::new();
    let length = result(string_length(&mut heap, &[string("aé🦀")], SPAN));
    assert_eq!(length.render(&heap), "3");
    let sliced = result(string_slice(&mut heap, &[string("aé🦀z"), Value::Int(1), Value::Int(3)], SPAN));
    assert_eq!(sliced.render(&heap), "\"é🦀\"");
}

#[test]
fn slice_clamps_bounds_and_empty_ranges() {
    let mut heap = Heap::new();
    for (start, end, expected) in [(1, 20, "bc"), (20, 30, ""), (2, 2, ""), (3, 1, "")] {
        let sliced = result(string_slice(
            &mut heap,
            &[string("abc"), Value::Int(start), Value::Int(end)],
            SPAN,
        ));
        assert_eq!(sliced.render(&heap), format!("\"{expected}\""));
    }
}

#[test]
fn search_and_case_operations_handle_unicode_strings() {
    let mut heap = Heap::new();
    assert!(matches!(
        result(string_contains(&mut heap, &[string("café"), string("fé")], SPAN)),
        Value::Bool(true)
    ));
    assert!(matches!(
        result(string_starts_with(&mut heap, &[string("🦀acean"), string("🦀")], SPAN)),
        Value::Bool(true)
    ));
    assert!(matches!(
        result(string_ends_with(&mut heap, &[string("naïve"), string("ïve")], SPAN)),
        Value::Bool(true)
    ));
    let trimmed = result(string_trim(&mut heap, &[string(" \n\té \u{2003}")], SPAN));
    assert_eq!(trimmed.render(&heap), "\"é\"");
    let lower = result(string_lower(&mut heap, &[string("ÄBC")], SPAN));
    assert_eq!(lower.render(&heap), "\"äbc\"");
    let upper = result(string_upper(&mut heap, &[string("Straße")], SPAN));
    assert_eq!(upper.render(&heap), "\"STRASSE\"");
}

#[test]
fn split_preserves_regular_empty_fields_but_not_empty_separator_sentinels() {
    let mut heap = Heap::new();
    let fields = result(string_split(&mut heap, &[string(",a,,b,"), string(",")], SPAN));
    assert_eq!(fields.render(&heap), "[\"\", \"a\", \"\", \"b\", \"\"]");
    let characters = result(string_split(&mut heap, &[string("aé🦀"), string("")], SPAN));
    assert_eq!(characters.render(&heap), "[\"a\", \"é\", \"🦀\"]");
    let none = result(string_split(&mut heap, &[string(""), string("")], SPAN));
    assert_eq!(none.render(&heap), "[]");
}

#[test]
fn invalid_arity_types_and_indices_are_qualified_hard_errors() {
    let mut heap = Heap::new();
    let errors = [
        hard_error(string_length(&mut heap, &[], SPAN)),
        hard_error(string_contains(&mut heap, &[Value::Int(1), string("1")], SPAN)),
        hard_error(string_split(&mut heap, &[string("abc"), Value::Nil], SPAN)),
        hard_error(string_slice(&mut heap, &[string("abc"), Value::Int(-1), Value::Int(2)], SPAN)),
        hard_error(string_slice(&mut heap, &[string("abc"), Value::Int(0), float(2.0)], SPAN)),
    ];

    for error in &errors {
        assert!(error.message.starts_with("std/string."), "{}", error.message);
        assert_eq!(error.span, SPAN);
    }
    assert_eq!(errors[0].message, "std/string.length expects 1 arguments, got 0");
    assert_eq!(errors[1].message, "std/string.contains value must be a string, got integer");
    assert_eq!(errors[2].message, "std/string.split separator must be a string, got nil");
    assert_eq!(errors[3].message, "std/string.slice start index must be nonnegative, got -1");
    assert_eq!(errors[4].message, "std/string.slice end index must be an integer, got float");
}

#[test]
fn search_edges() {
    let mut heap = Heap::new();
    let cases = [
        (string_contains(&mut heap, &[string("abc"), string("")], SPAN), true),
        (string_contains(&mut heap, &[string(""), string("a")], SPAN), false),
        (string_contains(&mut heap, &[string("aab"), string("ab")], SPAN), true),
        (string_starts_with(&mut heap, &[string("ab"), string("abc")], SPAN), false),
        (string_ends_with(&mut heap, &[string("abc"), string("bc")], SPAN), true),
        (string_ends_with(&mut heap, &[string("abc"), string("ab")], SPAN), false),
    ];
    for (r, expected) in cases {
        assert!(matches!(result(r), Value::Bool(b) if b == expected));
    }
    let fields = result(string_split(&mut heap, &[string("a--b---c"), string("--")], SPAN));
    assert_eq!(fields.render(&heap), "[\"a\", \"b\", \"-c\"]");
    let fields = result(string_split(&mut heap, &[string(""), string(",")], SPAN));
    assert_eq!(fields.render(&heap), "[\"\"]");
    let trimmed = result(string_trim(&mut heap, &[string("   ")], SPAN));
    assert_eq!(trimmed.render(&heap), "\"\"");
}

#[test]
fn trim_removes_exactly_the_unicode_white_space() {
    let mut heap = Heap::new();
    for code in (0u32..0x3100).chain([0xfeff, 0x180e, 0x200b, 0xffff]) {
        let Some(c) = char::from_u32(code) else { continue };
        let text = format!("{c}x{c}");
        match result(string_trim(&mut heap, &[string(&text)], SPAN)) {
            Value::String(trimmed) => assert_eq!(trimmed, text.trim(), "U+{code:04X}"),
            other => panic!("expected a string, got {:?}", other),
        }
    }
}
