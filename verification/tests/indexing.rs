use simi::environment::Environments;
use simi::evaluation::EvaluationError;
use simi::heap::Heap;
use simi::indexing::{commit_assignment, list_index, prepare_index_target, read_index, PreparedTarget};
use simi::span::Span;
use simi::value::{MapKey, Value};

fn span() -> Span {
    Span::new(2, 7)
}

fn expect_int(value: Value) -> i64 {
    match value {
        Value::Int(n) => n,
        other => panic!("expected an integer, got {other:?}"),
    }
}

#[test]
fn list_indexes_must_be_nonnegative_integers() {
    assert_eq!(list_index(&Value::Int(3), span()).expect("index"), (3, 3));
    let negative = list_index(&Value::Int(-2), span()).expect_err("negative");
    assert_eq!(negative.message, "list index must be nonnegative, got -2");
    assert_eq!(negative.span, span());
    let text = list_index(&Value::String("1".to_string()), span()).expect_err("string");
    assert_eq!(text.message, "list index must be an integer, got string");
}

#[test]
fn reading_lists_and_maps() {
    let mut heap = Heap::new();
    let list = heap.list(vec![Value::Int(10), Value::Int(20)]);
    assert_eq!(expect_int(read_index(&heap, &list, &Value::Int(1), span()).unwrap()), 20);
    assert!(matches!(read_index(&heap, &list, &Value::Int(2), span()).unwrap(), Value::Nil));
    let map = heap.map(vec![(MapKey::String("a".to_string()), Value::Int(1))]);
    let a = Value::String("a".to_string());
    assert_eq!(expect_int(read_index(&heap, &map, &a, span()).unwrap()), 1);
    let b = Value::String("b".to_string());
    assert!(matches!(read_index(&heap, &map, &b, span()).unwrap(), Value::Nil));
    let error = read_index(&heap, &Value::Int(1), &a, span()).expect_err("not a container");
    assert_eq!(error.message, "indexing requires a list or table, got integer");
    let nil_key = read_index(&heap, &map, &Value::Nil, span()).expect_err("nil key");
    assert_eq!(nil_key.message, "map key must be an integer, float, string, or boolean, got nil");
}

#[test]
fn assigning_through_a_list_index_is_read_back() {
    let mut heap = Heap::new();
    let mut environments = Environments::new();
    let env = environments.root();
    let list = heap.list(vec![Value::Int(1), Value::Int(2)]);
    let target = prepare_index_target(&mut heap, &list, &Value::Int(0), span()).ok().expect("target");
    let value = commit_assignment(&mut heap, &mut environments, env, target, Value::Int(9)).ok().expect("stored");
    assert_eq!(expect_int(value), 9);
    assert_eq!(expect_int(read_index(&heap, &list, &Value::Int(0), span()).unwrap()), 9);
    assert_eq!(expect_int(read_index(&heap, &list, &Value::Int(1), span()).unwrap()), 2);
}

#[test]
fn assigning_outside_a_list_raises_the_bounds_map() {
    let mut heap = Heap::new();
    let list = heap.list(vec![Value::Int(1)]);
    match prepare_index_target(&mut heap, &list, &Value::Int(4), span()) {
        Err(EvaluationError::Raised(raised)) => {
            assert_eq!(raised.origin, span());
            let map = raised.value;
            let index = Value::String("index".to_string());
            let length = Value::String("length".to_string());
            let error = Value::String("error".to_string());
            assert_eq!(expect_int(read_index(&heap, &map, &index, span()).unwrap()), 4);
            assert_eq!(expect_int(read_index(&heap, &map, &length, span()).unwrap()), 1);
            match read_index(&heap, &map, &error, span()).unwrap() {
                Value::String(s) => assert_eq!(s, "index_out_of_bounds"),
                other => panic!("unexpected {other:?}"),
            }
        }
        other => panic!("expected a raise, got {other:?}"),
    }
}

#[test]
fn assigning_map_entries_replaces_appends_and_removes() {
    let mut heap = Heap::new();
    let mut environments = Environments::new();
    let env = environments.root();
    let map = heap.map(vec![
        (MapKey::String("a".to_string()), Value::Int(1)),
        (MapKey::String("b".to_string()), Value::Int(2)),
    ]);
    let a = Value::String("a".to_string());
    let c = Value::String("c".to_string());
    let target = prepare_index_target(&mut heap, &map, &a, span()).ok().unwrap();
    commit_assignment(&mut heap, &mut environments, env, target, Value::Int(5)).ok().unwrap();
    let target = prepare_index_target(&mut heap, &map, &c, span()).ok().unwrap();
    commit_assignment(&mut heap, &mut environments, env, target, Value::Int(7)).ok().unwrap();
    assert_eq!(expect_int(read_index(&heap, &map, &a, span()).unwrap()), 5);
    assert_eq!(expect_int(read_index(&heap, &map, &c, span()).unwrap()), 7);
    let target = prepare_index_target(&mut heap, &map, &a, span()).ok().unwrap();
    commit_assignment(&mut heap, &mut environments, env, target, Value::Nil).ok().unwrap();
    assert!(matches!(read_index(&heap, &map, &a, span()).unwrap(), Value::Nil));
    let simi::value::Value::Table(reference) = map else { panic!("map") };
    let keys: Vec<String> = heap
        .map_entries(reference)
        .iter()
        .map(|(key, _)| match key {
            MapKey::String(s) => s.clone(),
            _ => String::new(),
        })
        .collect();
    assert_eq!(keys, vec!["b".to_string(), "c".to_string()]);
}

#[test]
fn assigning_a_name_needs_a_binding() {
    let mut heap = Heap::new();
    let mut environments = Environments::new();
    let env = environments.root();
    environments.define_fresh(env, "x", Value::Int(1));
    let target = PreparedTarget::Variable { name: "x".to_string(), span: span() };
    commit_assignment(&mut heap, &mut environments, env, target, Value::Int(2)).ok().unwrap();
    assert_eq!(expect_int(environments.get(env, "x").unwrap()), 2);
    let missing = PreparedTarget::Variable { name: "y".to_string(), span: span() };
    match commit_assignment(&mut heap, &mut environments, env, missing, Value::Int(2)) {
        Err(EvaluationError::Runtime(error)) => {
            assert_eq!(error.message, "cannot assign to undefined name `y`");
            assert_eq!(error.span, span());
        }
        other => panic!("unexpected {other:?}"),
    }
}

#[test]
fn unhandled_control_flow_becomes_a_hard_error() {
    let error = EvaluationError::Break { value: Value::Nil, span: span() }.into_runtime_error();
    assert_eq!(error.message, "`break` outside of a loop");
    assert_eq!(error.span, span());
    let error = EvaluationError::NilPropagate { span: span() }.into_runtime_error();
    assert_eq!(error.message, "nil propagation escaped its standalone block");
}
