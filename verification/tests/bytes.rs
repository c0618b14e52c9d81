use simi::error::{NativeResult, RuntimeError};
use simi::heap::Heap;
use simi::native::bytes::{
    bytes_concat, bytes_from_list, bytes_get, bytes_length, bytes_slice, bytes_to_list,
};
use simi::span::Span;
use simi::value::{Bytes, FloatRepr, Value};

const SPAN: Span = Span { start: 2, end: 5 };

fn bytes(values: Vec<u8>) -> Value {
    Value::Bytes(Bytes::new(values))
}

fn float(x: f64) -> Value {
    Value::Float(FloatRepr::new(x.to_bits(), format!("{:?}", x)))
}

fn result(result: NativeResult) -> Value {
    result.unwrap().unwrap()
}

fn hard_error(result: NativeResult) -> RuntimeError {
    match result {
        Err(error) => error,
        Ok(Ok(value)) => panic!("expected hard error, got {:?}", value),
        Ok(Err(raised)) => panic!("expected hard error, got {:?}", raised),
    }
}

#[test]
fn immutable_byte_operations_return_expected_values() {
    let mut heap = Heap::new();
    let source = bytes(vec![0, 127, 255]);

    let length = result(bytes_length(&mut heap, std::slice::from_ref(&source), SPAN));
    assert_eq!(length.render(&heap), "3");
    let got = result(bytes_get(&mut heap, &[source.clone(), Value::Int(2)], SPAN));
    assert_eq!(got.render(&heap), "255");
    assert!(matches!(
        result(bytes_get(&mut heap, &[source.clone(), Value::Int(3)], SPAN)),
        Value::Nil
    ));
    let sliced = result(bytes_slice(
        &mut heap,
        &[source.clone(), Value::Int(1), Value::Int(20)],
        SPAN,
    ));
    assert_eq!(sliced.render(&heap), "bytes[7f ff]");
    let empty = result(bytes_slice(
        &mut heap,
        &[source.clone(), Value::Int(3), Value::Int(1)],
        SPAN,
    ));
    assert_eq!(empty.render(&heap), "bytes[]");
    let joined = result(bytes_concat(&mut heap, &[source, bytes(vec![1, 2])], SPAN));
    assert_eq!(joined.render(&heap), "bytes[00 7f ff 01 02]");
}

#[test]
fn list_conversions_validate_before_constructing_bytes() {
    let mut heap = Heap::new();
    let values = heap.list(vec![Value::Int(0), Value::Int(127), Value::Int(255)]);
    let built = result(bytes_from_list(&mut heap, std::slice::from_ref(&values), SPAN));
    assert_eq!(built.render(&heap), "bytes[00 7f ff]");
    let listed = result(bytes_to_list(&mut heap, &[bytes(vec![0, 127, 255])], SPAN));
    assert_eq!(listed.render(&heap), "[0, 127, 255]");

    let invalid = heap.list(vec![Value::Int(1), Value::Int(256)]);
    let error = hard_error(bytes_from_list(&mut heap, std::slice::from_ref(&invalid), SPAN));
    assert_eq!(
        error.message,
        "std/bytes.from_list values[1] must be between 0 and 255, got 256"
    );
    assert_eq!(invalid.render(&heap), "[1, 256]");
}

#[test]
fn invalid_arity_categories_and_indices_are_qualified_hard_errors() {
    let mut heap = Heap::new();
    let bad_list = heap.list(vec![Value::String("x".to_owned())]);
    let errors = [
        hard_error(bytes_length(&mut heap, &[], SPAN)),
        hard_error(bytes_get(&mut heap, &[bytes(vec![]), Value::Int(-1)], SPAN)),
        hard_error(bytes_slice(
            &mut heap,
            &[bytes(vec![]), float(0.0), Value::Int(1)],
            SPAN,
        )),
        hard_error(bytes_concat(&mut heap, &[bytes(vec![]), Value::Nil], SPAN)),
        hard_error(bytes_from_list(&mut heap, &[Value::Nil], SPAN)),
        hard_error(bytes_from_list(&mut heap, &[bad_list], SPAN)),
        hard_error(bytes_to_list(&mut heap, &[Value::Int(1)], SPAN)),
    ];

    for error in errors {
        assert!(error.message.starts_with("std/bytes."), "{}", error.message);
        assert_eq!(error.span, SPAN);
    }
}

#[test]
fn bytes_errors_name_the_exact_problem() {
    let mut heap = Heap::new();
    let error = hard_error(bytes_get(&mut heap, &[bytes(vec![]), Value::Int(-1)], SPAN));
    assert_eq!(error.message, "std/bytes.get index index must be nonnegative, got -1");
    let error = hard_error(bytes_length(&mut heap, &[], SPAN));
    assert_eq!(error.message, "std/bytes.length expects 1 arguments, got 0");
}
