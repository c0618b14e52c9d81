use simi::error::{NativeResult, RuntimeError};
use simi::heap::Heap;
use simi::native::map::{map_clear, map_entries, map_has, map_keys, map_length, map_values};
use simi::span::Span;
use simi::value::{FloatRepr, MapKey, MapRef, Value};

type Native = fn(&mut Heap, &[Value], Span) -> NativeResult;

fn float(x: f64) -> Value {
    Value::Float(FloatRepr::new(x.to_bits(), format!("{:?}", x)))
}

fn call(heap: &mut Heap, function: Native, args: &[Value]) -> Value {
    function(heap, args, Span::new(0, 1)).unwrap().unwrap()
}

fn hard_error(heap: &Heap, result: NativeResult) -> RuntimeError {
    match result {
        Err(error) => error,
        Ok(Ok(value)) => panic!("expected hard error, got {}", value.render(heap)),
        Ok(Err(raised)) => panic!("expected hard error, got raise {}", raised.value.render(heap)),
    }
}

#[test]
fn inspection_preserves_mixed_key_insertion_order() {
    let mut heap = Heap::new();
    let float_key = MapKey::from_value(&float(1.5), Span::new(0, 1)).unwrap();
    let values = heap.map(vec![
        (MapKey::String("first".to_owned()), Value::Int(1)),
        (MapKey::Int(2), Value::String("second".to_owned())),
        (MapKey::Bool(false), Value::Int(3)),
        (float_key, Value::String("fourth".to_owned())),
    ]);

    let length = call(&mut heap, map_length, std::slice::from_ref(&values));
    assert_eq!(length.render(&heap), "4");
    let keys = call(&mut heap, map_keys, std::slice::from_ref(&values));
    assert_eq!(keys.render(&heap), "[\"first\", 2, false, 1.5]");
    let listed = call(&mut heap, map_values, std::slice::from_ref(&values));
    assert_eq!(listed.render(&heap), "[1, \"second\", 3, \"fourth\"]");
    let entries = call(&mut heap, map_entries, std::slice::from_ref(&values));
    assert_eq!(
        entries.render(&heap),
        "[[\"first\", 1], [2, \"second\"], [false, 3], [1.5, \"fourth\"]]"
    );
}

#[test]
fn has_normalizes_numeric_keys_and_reflects_nil_as_absence() {
    let mut heap = Heap::new();
    let values = heap.map(vec![
        (MapKey::Int(1), Value::String("one".to_owned())),
        (MapKey::Int(2), Value::Nil),
    ]);

    let found = call(&mut heap, map_has, &[values.clone(), float(1.0)]);
    assert_eq!(found.render(&heap), "true");
    let nil_valued = call(&mut heap, map_has, &[values.clone(), Value::Int(2)]);
    assert_eq!(nil_valued.render(&heap), "false");
    let missing = call(&mut heap, map_has, &[values, Value::Int(3)]);
    assert_eq!(missing.render(&heap), "false");
}

#[test]
fn clear_mutates_aliases_and_returns_nil() {
    let mut heap = Heap::new();
    let values = heap.map(vec![(MapKey::String("value".to_owned()), Value::Int(1))]);
    let alias = values.clone();

    assert!(matches!(call(&mut heap, map_clear, std::slice::from_ref(&values)), Value::Nil));
    assert_eq!(alias.render(&heap), "{}");
}

#[test]
fn invalid_arguments_are_qualified_hard_errors() {
    let mut heap = Heap::new();
    let values = heap.map(Vec::new());
    let span = Span::new(0, 1);
    let results = [
        map_length(&mut heap, &[], span),
        map_has(&mut heap, &[values.clone(), Value::Nil], span),
        map_keys(&mut heap, &[Value::Nil], span),
        map_values(&mut heap, &[Value::Nil], span),
        map_entries(&mut heap, &[Value::Nil], span),
        map_clear(&mut heap, &[Value::Nil], span),
    ];
    let names = [
        "std/map.length",
        "std/map.has",
        "std/map.keys",
        "std/map.values",
        "std/map.entries",
        "std/map.clear",
    ];
    for (result, name) in results.into_iter().zip(names) {
        let error = hard_error(&heap, result);
        assert!(error.message.contains(name), "{} should contain {name}", error.message);
    }
}

#[test]
fn active_borrows_return_qualified_errors_instead_of_panicking() {
    let mut heap = Heap::new();
    // A reference to a map the heap cannot lend.
    let values = Value::Table(MapRef { id: 3 });
    let span = Span::new(0, 1);
    let results = [
        map_length(&mut heap, std::slice::from_ref(&values), span),
        map_has(&mut heap, &[values.clone(), Value::String("key".to_owned())], span),
        map_keys(&mut heap, std::slice::from_ref(&values), span),
        map_values(&mut heap, std::slice::from_ref(&values), span),
        map_entries(&mut heap, std::slice::from_ref(&values), span),
    ];
    let names = [
        "std/map.length",
        "std/map.has",
        "std/map.keys",
        "std/map.values",
        "std/map.entries",
    ];
    for (result, name) in results.into_iter().zip(names) {
        let error = hard_error(&heap, result);
        assert!(
            error.message.contains(&format!("{name} could not borrow map")),
            "{} should contain qualified borrow diagnostic for {name}",
            error.message
        );
    }
    let result = map_clear(&mut heap, std::slice::from_ref(&values), span);
    let error = hard_error(&heap, result);
    assert!(error.message.contains("std/map.clear could not borrow map"));
}

#[test]
fn map_key_diagnostics_are_exact() {
    let mut heap = Heap::new();
    let values = heap.map(Vec::new());
    let result = map_has(&mut heap, &[values.clone(), Value::Nil], Span::new(0, 1));
    let error = hard_error(&heap, result);
    assert_eq!(
        error.message,
        "std/map.has key must be an integer, float, string, or boolean, got nil"
    );
    let result = map_has(&mut heap, &[values, float(f64::NAN)], Span::new(0, 1));
    let error = hard_error(&heap, result);
    assert_eq!(error.message, "std/map.has key must not be NaN");
}
