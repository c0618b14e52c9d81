use simi::heap::Heap;
use simi::native::list::{
    list_append, list_contains, list_copy, list_extend, list_get, list_insert, list_length,
    list_pop, list_remove, list_reverse, list_set, list_slice,
};
use simi::span::Span;
use simi::value::{FloatRepr, ListRef, Value};

fn span() -> Span {
    Span::new(0, 1)
}

fn float(x: f64) -> Value {
    Value::Float(FloatRepr::new(x.to_bits(), format!("{:?}", x)))
}

#[test]
fn list_operations_mutate_aliases() {
    let mut heap = Heap::new();
    let values = heap.list(vec![Value::Int(1)]);
    let alias = values.clone();
    list_append(&mut heap, &[values.clone(), Value::Int(2)], span()).unwrap().unwrap();
    list_set(&mut heap, &[values.clone(), Value::Int(0), Value::Int(3)], span())
        .unwrap()
        .unwrap();

    let length = list_length(&mut heap, std::slice::from_ref(&values), span()).unwrap().unwrap();
    assert_eq!(length.render(&heap), "2");
    let got = list_get(&mut heap, &[values, Value::Int(1)], span()).unwrap().unwrap();
    assert_eq!(got.render(&heap), "2");
    assert_eq!(alias.render(&heap), "[3, 2]");
}

#[test]
fn copy_creates_an_independent_shallow_cow_list() {
    let mut heap = Heap::new();
    let nested = heap.list(vec![Value::Int(1)]);
    let source = heap.list(vec![nested.clone(), Value::Int(2)]);
    let copied = list_copy(&mut heap, std::slice::from_ref(&source), span()).unwrap().unwrap();

    let (Value::List(source_list), Value::List(copied_list)) = (&source, &copied) else {
        panic!("copy should return a list")
    };
    assert_ne!(source_list.id, copied_list.id);

    list_set(&mut heap, &[source.clone(), Value::Int(1), Value::Int(3)], span())
        .unwrap()
        .unwrap();
    list_append(&mut heap, &[nested, Value::Int(4)], span()).unwrap().unwrap();

    assert_eq!(source.render(&heap), "[[1, 4], 3]");
    assert_eq!(copied.render(&heap), "[[1, 4], 2]");
}

#[test]
fn extending_a_list_with_itself_uses_a_snapshot() {
    let mut heap = Heap::new();
    let values = heap.list(vec![Value::Int(1), Value::Int(2)]);
    list_extend(&mut heap, &[values.clone(), values.clone()], span()).unwrap().unwrap();
    assert_eq!(values.render(&heap), "[1, 2, 1, 2]");
}

#[test]
fn invalid_arity_type_and_indices_are_errors() {
    let mut heap = Heap::new();
    let values = heap.list(vec![Value::Int(1)]);
    assert!(list_length(&mut heap, &[], span()).is_err());
    assert!(list_copy(&mut heap, &[], span()).is_err());
    assert!(list_copy(&mut heap, &[Value::Nil], span()).is_err());
    assert!(list_append(&mut heap, &[Value::Nil, Value::Nil], span()).is_err());
    assert!(list_get(&mut heap, &[values.clone(), Value::String("0".to_owned())], span()).is_err());
    assert!(list_get(&mut heap, &[values.clone(), Value::Int(-1)], span()).is_err());
    assert!(matches!(
        list_get(&mut heap, &[values.clone(), Value::Int(1)], span()),
        Ok(Ok(Value::Nil))
    ));
    let raised = match list_set(&mut heap, &[values, Value::Int(1), Value::Nil], span()).unwrap() {
        Err(raised) => raised,
        Ok(value) => panic!("expected bounds raise, got {}", value.render(&heap)),
    };
    assert_eq!(
        raised.value.render(&heap),
        "{error=\"index_out_of_bounds\", index=1, length=1}"
    );
}

#[test]
fn insert_remove_pop_and_reverse_mutate_aliases() {
    let mut heap = Heap::new();
    let values = heap.list(vec![Value::Int(1), Value::Int(3)]);
    let alias = values.clone();

    assert!(matches!(
        list_insert(&mut heap, &[values.clone(), Value::Int(1), Value::Int(2)], span())
            .unwrap()
            .unwrap(),
        Value::Nil
    ));
    let removed = list_remove(&mut heap, &[values.clone(), Value::Int(0)], span()).unwrap().unwrap();
    assert_eq!(removed.render(&heap), "1");
    let popped = list_pop(&mut heap, std::slice::from_ref(&values), span()).unwrap().unwrap();
    assert_eq!(popped.render(&heap), "3");
    list_reverse(&mut heap, std::slice::from_ref(&values), span()).unwrap().unwrap();

    assert_eq!(alias.render(&heap), "[2]");
}

#[test]
fn insertion_removal_and_empty_pop_raise_exact_bounds_values() {
    let mut heap = Heap::new();
    let values = heap.list(vec![Value::Int(1)]);
    let empty = heap.list(vec![]);
    let results = [
        (
            list_insert(&mut heap, &[values.clone(), Value::Int(2), Value::Nil], span()),
            "{error=\"index_out_of_bounds\", index=2, length=1}",
        ),
        (
            list_remove(&mut heap, &[values.clone(), Value::Int(1)], span()),
            "{error=\"index_out_of_bounds\", index=1, length=1}",
        ),
        (
            list_pop(&mut heap, &[empty], span()),
            "{error=\"index_out_of_bounds\", index=0, length=0}",
        ),
    ];
    for (result, expected) in results {
        let raised = match result.unwrap() {
            Err(raised) => raised,
            Ok(value) => panic!("operation should raise bounds value, got {}", value.render(&heap)),
        };
        assert_eq!(raised.value.render(&heap), expected);
    }

    list_insert(&mut heap, &[values.clone(), Value::Int(1), Value::Int(2)], span())
        .unwrap()
        .unwrap();
    assert_eq!(values.render(&heap), "[1, 2]");
}

#[test]
fn slices_are_independent_cow_views_with_shallow_aliases() {
    let mut heap = Heap::new();
    let nested = heap.list(vec![Value::Int(1)]);
    let source = heap.list(vec![Value::Int(0), nested.clone(), Value::Int(2)]);
    let slice = list_slice(&mut heap, &[source.clone(), Value::Int(1), Value::Int(10)], span())
        .unwrap()
        .unwrap();
    assert_eq!(slice.render(&heap), "[[1], 2]");

    list_set(&mut heap, &[source.clone(), Value::Int(1), Value::Int(9)], span())
        .unwrap()
        .unwrap();
    list_append(&mut heap, &[nested, Value::Int(3)], span()).unwrap().unwrap();
    assert_eq!(source.render(&heap), "[0, 9, 2]");
    assert_eq!(slice.render(&heap), "[[1, 3], 2]");

    for (start, end) in [(3, 1), (10, 20)] {
        let empty = list_slice(&mut heap, &[source.clone(), Value::Int(start), Value::Int(end)], span())
            .unwrap()
            .unwrap();
        assert_eq!(empty.render(&heap), "[]");
    }
}

#[test]
fn contains_uses_language_numeric_equality_and_rejects_container_equality() {
    let mut heap = Heap::new();
    let values = heap.list(vec![Value::Int(1), Value::String("one".to_owned())]);
    assert!(matches!(
        list_contains(&mut heap, &[values.clone(), float(1.0)], span()).unwrap().unwrap(),
        Value::Bool(true)
    ));
    assert!(matches!(
        list_contains(&mut heap, &[values, Value::String("missing".to_owned())], span())
            .unwrap()
            .unwrap(),
        Value::Bool(false)
    ));

    let cyclic = heap.list(Vec::new());
    list_append(&mut heap, &[cyclic.clone(), cyclic.clone()], span()).unwrap().unwrap();
    let error = match list_contains(&mut heap, &[cyclic.clone(), cyclic], span()) {
        Err(error) => error,
        Ok(_) => panic!("container equality should remain a hard diagnostic"),
    };
    assert!(error.message.contains("equality is not supported for list and list"));
}

#[test]
fn active_borrows_return_errors_instead_of_panicking() {
    let mut heap = Heap::new();
    // A reference to a list the heap cannot lend.
    let values = Value::List(ListRef { id: 7 });
    let error = list_copy(&mut heap, std::slice::from_ref(&values), span()).unwrap_err();
    assert_eq!(error.message, "std/list.copy could not borrow list");
    assert!(list_append(&mut heap, &[values.clone(), Value::Nil], span()).is_err());
    assert!(list_reverse(&mut heap, std::slice::from_ref(&values), span()).is_err());
}

#[test]
fn list_diagnostics_are_exact() {
    let mut heap = Heap::new();
    let values = heap.list(vec![Value::Int(1)]);
    let error = list_length(&mut heap, &[], span()).unwrap_err();
    assert_eq!(error.message, "std/list.length expects 1 arguments, got 0");
    let error = list_append(&mut heap, &[Value::Nil, Value::Nil], span()).unwrap_err();
    assert_eq!(error.message, "std/list.append requires a list, got nil");
    let error = list_get(&mut heap, &[values, Value::Int(-1)], span()).unwrap_err();
    assert_eq!(error.message, "std/list.get index must be nonnegative, got -1");
}
