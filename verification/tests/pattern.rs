use simi::heap::Heap;
use simi::pattern::{match_pattern, Pattern, PatternKind, PatternRest};
use simi::span::Span;
use simi::value::{FloatRepr, MapKey, Value};

fn at(start: usize) -> Span {
    Span::new(start, start + 1)
}

fn pattern(kind: PatternKind) -> Pattern {
    Pattern { kind, span: at(0) }
}

fn bind(name: &str) -> Pattern {
    pattern(PatternKind::Binding(name.to_string()))
}

fn names(bindings: &[(String, Value)]) -> Vec<&str> {
    bindings.iter().map(|(name, _)| name.as_str()).collect()
}

fn expect_int(value: &Value) -> i64 {
    match value {
        Value::Int(n) => *n,
        other => panic!("expected an integer, got {other:?}"),
    }
}

#[test]
fn literals_match_by_value_and_numbers_across_kinds() {
    let mut heap = Heap::new();
    let mut bindings = Vec::new();
    let two = pattern(PatternKind::Int(2));
    let float_two = Value::Float(FloatRepr::new(2.0f64.to_bits(), "2.0".to_string()));
    assert!(match_pattern(&mut heap, &two, &float_two, &mut bindings).unwrap());
    assert!(!match_pattern(&mut heap, &two, &Value::Int(3), &mut bindings).unwrap());
    let half = pattern(PatternKind::Float(FloatRepr::new(0.5f64.to_bits(), "0.5".to_string())));
    assert!(!match_pattern(&mut heap, &half, &Value::Int(0), &mut bindings).unwrap());
    let text = pattern(PatternKind::String("a".to_string()));
    assert!(match_pattern(&mut heap, &text, &Value::String("a".to_string()), &mut bindings).unwrap());
    assert!(!match_pattern(&mut heap, &text, &Value::Int(1), &mut bindings).unwrap());
    let nil = pattern(PatternKind::Nil);
    assert!(match_pattern(&mut heap, &nil, &Value::Nil, &mut bindings).unwrap());
    let yes = pattern(PatternKind::Bool(true));
    assert!(!match_pattern(&mut heap, &yes, &Value::Bool(false), &mut bindings).unwrap());
    assert!(bindings.is_empty());
}

#[test]
fn list_patterns_bind_elements_and_a_new_rest_list() {
    let mut heap = Heap::new();
    let list = heap.list(vec![Value::Int(1), Value::Int(2), Value::Int(3)]);
    let p = pattern(PatternKind::List {
        elements: vec![bind("first"), pattern(PatternKind::Wildcard)],
        rest: Some(PatternRest::Binding("others".to_string())),
    });
    let mut bindings = Vec::new();
    assert!(match_pattern(&mut heap, &p, &list, &mut bindings).unwrap());
    assert_eq!(names(&bindings), vec!["first", "others"]);
    assert_eq!(expect_int(&bindings[0].1), 1);
    match (&bindings[1].1, &list) {
        (Value::List(rest), Value::List(original)) => {
            assert_ne!(rest.id, original.id);
            let values = heap.list_values(*rest);
            assert_eq!(values.len(), 1);
            assert_eq!(expect_int(&values[0]), 3);
        }
        other => panic!("unexpected {other:?}"),
    }
}

#[test]
fn list_patterns_need_the_exact_length_without_a_rest() {
    let mut heap = Heap::new();
    let list = heap.list(vec![Value::Int(1), Value::Int(2)]);
    let exact = pattern(PatternKind::List { elements: vec![bind("a")], rest: None });
    let mut bindings = Vec::new();
    assert!(!match_pattern(&mut heap, &exact, &list, &mut bindings).unwrap());
    let longer = pattern(PatternKind::List {
        elements: vec![bind("a"), bind("b"), bind("c")],
        rest: Some(PatternRest::Discard),
    });
    assert!(!match_pattern(&mut heap, &longer, &list, &mut bindings).unwrap());
    assert!(bindings.is_empty());
}

#[test]
fn failed_matches_leave_no_partial_bindings() {
    let mut heap = Heap::new();
    let list = heap.list(vec![Value::Int(1), Value::Int(2)]);
    let p = pattern(PatternKind::List {
        elements: vec![bind("a"), pattern(PatternKind::Int(9))],
        rest: None,
    });
    let mut bindings = vec![("kept".to_string(), Value::Nil)];
    assert!(!match_pattern(&mut heap, &p, &list, &mut bindings).unwrap());
    assert_eq!(names(&bindings), vec!["kept"]);
}

#[test]
fn map_patterns_read_fields_treat_missing_nil_fields_and_bind_the_rest() {
    let mut heap = Heap::new();
    let map = heap.map(vec![
        (MapKey::String("name".to_string()), Value::String("cat".to_string())),
        (MapKey::String("age".to_string()), Value::Int(4)),
        (MapKey::Int(7), Value::Bool(true)),
    ]);
    let p = pattern(PatternKind::Table {
        fields: vec![
            ("name".to_string(), bind("n")),
            ("owner".to_string(), pattern(PatternKind::Nil)),
        ],
        rest: Some(PatternRest::Binding("extra".to_string())),
    });
    let mut bindings = Vec::new();
    assert!(match_pattern(&mut heap, &p, &map, &mut bindings).unwrap());
    assert_eq!(names(&bindings), vec!["n", "extra"]);
    match &bindings[1].1 {
        Value::Table(rest) => {
            let entries = heap.map_entries(*rest);
            assert_eq!(entries.len(), 2);
            assert!(matches!(&entries[0].0, MapKey::String(s) if s == "age"));
            assert!(matches!(&entries[1].0, MapKey::Int(7)));
        }
        other => panic!("unexpected {other:?}"),
    }
    let missing = pattern(PatternKind::Table {
        fields: vec![("owner".to_string(), bind("o"))],
        rest: None,
    });
    let mut none = Vec::new();
    assert!(!match_pattern(&mut heap, &missing, &map, &mut none).unwrap());
    assert!(none.is_empty());
}

#[test]
fn nested_patterns_bind_in_order() {
    let mut heap = Heap::new();
    let inner = heap.list(vec![Value::Int(5), Value::Int(6)]);
    let outer = heap.list(vec![inner, Value::Int(7)]);
    let p = pattern(PatternKind::List {
        elements: vec![
            pattern(PatternKind::List { elements: vec![bind("x"), bind("y")], rest: None }),
            bind("z"),
        ],
        rest: None,
    });
    let mut bindings = Vec::new();
    assert!(match_pattern(&mut heap, &p, &outer, &mut bindings).unwrap());
    assert_eq!(names(&bindings), vec!["x", "y", "z"]);
    let values: Vec<i64> = bindings.iter().map(|(_, v)| expect_int(v)).collect();
    assert_eq!(values, vec![5, 6, 7]);
}
