use simi::evaluation::EvaluationError;
use simi::heap::Heap;
use simi::iteration::{
    decode_control, decode_step, longest_step_value, predicate_error, step_value, validate_count,
    validate_range, IteratorControl, IteratorStep,
};
use simi::span::Span;
use simi::value::{MapKey, Value};

fn span() -> Span {
    Span::new(4, 9)
}

fn message(error: EvaluationError) -> String {
    match error {
        EvaluationError::Runtime(e) => {
            assert_eq!(e.span, span());
            e.message
        }
        other => panic!("expected a hard error, got {other:?}"),
    }
}

fn text(s: &str) -> MapKey {
    MapKey::String(s.to_string())
}

#[test]
fn step_maps_read_back_as_their_steps() {
    let mut heap = Heap::new();
    let done = step_value(&mut heap, IteratorStep::Done);
    assert!(matches!(decode_step(&heap, &done, span()), Ok(IteratorStep::Done)));
    let item = step_value(&mut heap, IteratorStep::Item(Value::Int(3)));
    assert!(matches!(decode_step(&heap, &item, span()), Ok(IteratorStep::Item(Value::Int(3)))));
    let nil = step_value(&mut heap, IteratorStep::Item(Value::Nil));
    if let Value::Table(map) = &nil {
        assert_eq!(heap.map_entries(*map).len(), 1);
    }
    assert!(matches!(decode_step(&heap, &nil, span()), Ok(IteratorStep::Item(Value::Nil))));
}

#[test]
fn malformed_steps_are_hard_errors() {
    let mut heap = Heap::new();
    let error = decode_step(&heap, &Value::Int(1), span()).err().unwrap();
    assert_eq!(message(error), "std/iter iterator must return a step map, got integer");
    let missing = heap.map(vec![(text("value"), Value::Int(1))]);
    let error = decode_step(&heap, &missing, span()).err().unwrap();
    assert_eq!(message(error), "std/iter iterator step is missing boolean field `done`");
    let wrong = heap.map(vec![(text("done"), Value::Int(1))]);
    let error = decode_step(&heap, &wrong, span()).err().unwrap();
    assert_eq!(message(error), "std/iter step field `done` must be boolean, got integer");
}

#[test]
fn control_maps_continue_or_break() {
    let mut heap = Heap::new();
    let go_on = heap.map(vec![(text("control"), Value::String("continue".to_string())), (text("value"), Value::Int(2))]);
    assert!(matches!(decode_control(&heap, &go_on, "fold_while", span()), Ok(IteratorControl::Continue(Value::Int(2)))));
    let stop = heap.map(vec![(text("control"), Value::String("break".to_string()))]);
    assert!(matches!(decode_control(&heap, &stop, "loop", span()), Ok(IteratorControl::Break(Value::Nil))));
    let odd = heap.map(vec![(text("control"), Value::String("halt".to_string()))]);
    let error = decode_control(&heap, &odd, "each_while", span()).err().unwrap();
    assert_eq!(message(error), "std/iter.each_while callback control must be `break` or `continue`, got `halt`");
    let typed = heap.map(vec![(text("control"), Value::Bool(true))]);
    let error = decode_control(&heap, &typed, "loop", span()).err().unwrap();
    assert_eq!(message(error), "std/iter.loop callback field `control` must be a string, got boolean");
    let empty = heap.map(Vec::new());
    let error = decode_control(&heap, &empty, "loop", span()).err().unwrap();
    assert_eq!(message(error), "std/iter.loop callback control is missing field `control`");
    let error = decode_control(&heap, &Value::Nil, "loop", span()).err().unwrap();
    assert_eq!(message(error), "std/iter.loop callback must return a control map, got nil");
}

#[test]
fn zip_longest_steps_record_both_sides() {
    let mut heap = Heap::new();
    let step = longest_step_value(&mut heap, IteratorStep::Item(Value::Int(1)), true, false);
    let Value::Table(map) = step else { panic!("step map") };
    let keys: Vec<String> = heap
        .map_entries(map)
        .iter()
        .map(|(k, _)| match k {
            MapKey::String(s) => s.clone(),
            _ => String::new(),
        })
        .collect();
    assert_eq!(keys, vec!["done", "value", "left_done", "right_done"]);
}

#[test]
fn counts_and_ranges_are_checked() {
    assert!(matches!(validate_count(&Value::Int(0), span()), Ok(Value::Nil)));
    let error = validate_count(&Value::Int(-3), span()).err().unwrap();
    assert_eq!(message(error), "std/iter count must be nonnegative, got -3");
    let error = validate_count(&Value::Bool(true), span()).err().unwrap();
    assert_eq!(message(error), "std/iter count must be a nonnegative integer, got boolean");
    assert!(matches!(validate_range(&[Value::Int(1), Value::Int(4)], span()), Ok(Value::Nil)));
    let error = validate_range(&[Value::Int(1)], span()).err().unwrap();
    assert_eq!(message(error), "std/iter.range bounds must be integers");
    let error = predicate_error("filter", &Value::Int(1), span());
    assert_eq!(message(error), "std/iter.filter predicate must return a boolean, got integer");
}
