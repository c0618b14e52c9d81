use simi::heap::Heap;
use simi::module::Module;
use std::cell::Cell;

use simi::error::NativeResult;
use simi::span::Span;
use simi::value::{NativeFunction, Value};

#[test]
fn builder_exports_values_in_order_and_replaces_in_place() {
    let mut heap = Heap::new();
    let value = Module::builder("tools".to_owned())
        .value("a".to_owned(), Value::Int(1))
        .value("b".to_owned(), Value::Int(2))
        .value("a".to_owned(), Value::Int(3))
        .build_value(&mut heap);
    assert_eq!(value.render(&heap), "{a=3, b=2}");
}

#[test]
fn nil_removes_an_export() {
    let mut heap = Heap::new();
    let value = Module::builder("tools".to_owned())
        .value("a".to_owned(), Value::Int(1))
        .value("b".to_owned(), Value::Int(2))
        .value("a".to_owned(), Value::Nil)
        .value("c".to_owned(), Value::Nil)
        .build_value(&mut heap);
    assert_eq!(value.render(&heap), "{b=2}");
}

#[test]
fn functions_are_named_by_module_and_arity() {
    let mut heap = Heap::new();
    let value = Module::builder("std/demo".to_owned())
        .function("shout".to_owned(), 1, 0)
        .build_value(&mut heap);
    assert_eq!(value.render(&heap), "{shout=<function std/demo.shout>}");
}

#[test]
fn modules_know_their_name_and_backing() {
    let mut heap = Heap::new();
    let direct = Module::builder("direct".to_owned()).build();
    assert_eq!(direct.name(), "direct");
    assert!(!direct.is_source_backed());
    let sourced = Module::source("facade".to_owned(), "host".to_owned(), &mut heap)
        .host(Value::Int(7))
        .build();
    assert_eq!(sourced.name(), "facade");
    assert!(sourced.is_source_backed());
}

#[test]
fn native_calls_check_arity_before_running_the_callback() {
    let function = NativeFunction { name: "std/demo.shout".to_owned(), arity: 1, callback: 4 };
    let runs = Cell::new(0);
    let callback = |args: &[Value], _span: Span| -> NativeResult {
        runs.set(runs.get() + 1);
        Ok(Ok(args[0].clone()))
    };
    let span = Span { start: 3, end: 8 };
    let error = function.call(&[], span, &callback).unwrap_err();
    assert_eq!(error.message, "native function `std/demo.shout` expects 1 arguments, got 0");
    assert_eq!(error.span, span);
    assert_eq!(runs.get(), 0);
    let result = function.call(&[Value::Int(7)], span, &callback).unwrap().unwrap();
    assert!(matches!(result, Value::Int(7)));
    assert_eq!(runs.get(), 1);
}

#[test]
fn building_a_module_keeps_the_callback_key() {
    let module = Module::builder("std/demo".to_owned()).function("shout".to_owned(), 2, 9).build();
    let (_, contents) = module.into_parts();
    match contents {
        simi::module::ModuleContents::Direct(exports) => match &exports[0].1 {
            Value::NativeFunction(f) => {
                assert_eq!(f.name, "std/demo.shout");
                assert_eq!(f.arity, 2);
                assert_eq!(f.callback, 9);
            }
            other => panic!("expected a native function, got {:?}", other),
        },
        _ => panic!("expected a direct module"),
    }
}
