use simi::engine::{Engine, ModuleLookup};
use simi::heap::Heap;
use simi::module::Module;
use simi::value::Value;

fn engine(heap: &mut Heap) -> Engine {
    let direct = Module::builder("std/answer".to_string()).value("value".to_string(), Value::Int(42)).build();
    let source = Module::source("app/util".to_string(), "let x = 1".to_string(), heap).build();
    let replaced = Module::source("app/other".to_string(), "old".to_string(), heap).build();
    let replacement = Module::source("app/other".to_string(), "new".to_string(), heap).build();
    Engine::builder().module(direct).module(source).module(replaced).module(replacement).build(heap)
}

#[test]
fn source_modules_load_once_detect_cycles_and_retry_after_failure() {
    let mut heap = Heap::new();
    let mut engine = engine(&mut heap);
    let registry = engine.modules();
    assert!(matches!(registry.begin_load("missing"), ModuleLookup::Missing));
    match registry.begin_load("app/util") {
        ModuleLookup::Source { source, .. } => assert_eq!(source, "let x = 1"),
        other => panic!("unexpected {other:?}"),
    }
    assert!(matches!(registry.begin_load("app/util"), ModuleLookup::Loading));
    registry.fail_load("app/util");
    assert!(matches!(registry.begin_load("app/util"), ModuleLookup::Source { .. }));
    registry.finish_load("app/util", Value::Int(7));
    assert!(matches!(registry.begin_load("app/util"), ModuleLookup::Loaded(Value::Int(7))));
    assert!(matches!(registry.begin_load("app/util"), ModuleLookup::Loaded(Value::Int(7))));
}

#[test]
fn direct_modules_are_maps_of_their_exports() {
    let mut heap = Heap::new();
    let mut engine = engine(&mut heap);
    match engine.modules().begin_load("std/answer") {
        ModuleLookup::Loaded(Value::Table(map)) => {
            let entries = heap.map_entries(map);
            assert_eq!(entries.len(), 1);
            assert!(matches!(entries[0].1, Value::Int(42)));
        }
        other => panic!("unexpected {other:?}"),
    }
    engine.modules().finish_load("std/answer", Value::Nil);
    assert!(matches!(engine.modules().begin_load("std/answer"), ModuleLookup::Loaded(Value::Table(_))));
}

#[test]
fn a_later_module_replaces_one_of_the_same_name() {
    let mut heap = Heap::new();
    let engine = engine(&mut heap);
    let sources = engine.module_sources();
    assert_eq!(
        sources,
        vec![
            ("app/util".to_string(), "let x = 1".to_string()),
            ("app/other".to_string(), "new".to_string()),
        ]
    );
}
