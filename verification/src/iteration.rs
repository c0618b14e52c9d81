//! The iterator protocol of `std/iter`. An iterator is a function that returns a step map:
//! `{done = true}` at the end, or `{done = false, value = ...}` with the next item, where an
//! absent `value` stands for `nil`. Callbacks that steer a loop return a control map:
//! `{control = "continue", value = ...}` or `{control = "break", value = ...}`.
use vstd::prelude::*;
use crate::error::RuntimeError;
use crate::evaluation::EvaluationError;
use crate::heap::{Heap, HeapV};
use crate::indexing::{entry_position, find_entry};
use crate::span::Span;
use crate::text::{int_decimal, push_i64_decimal, push_str, str_equal};
use crate::value::{entries_view, kind_name_of, same_key, MapKey, MapKeyV, Value, ValueV};

verus! {

/// One step of an iterator: the end, or the next item.
#[derive(Debug)]
pub enum IteratorStep {
    Done,
    Item(Value),
}

/// What a callback asks of a loop: go on, or stop, each with a value.
#[derive(Debug)]
pub enum IteratorControl {
    Continue(Value),
    Break(Value),
}

/// The value of the first entry whose key is the string `name`.
pub open spec fn string_field(entries: Seq<(MapKeyV, ValueV)>, name: Seq<char>) -> Option<ValueV> {
    match entry_position(entries, MapKeyV::String(name), 0) {
        Some(p) => Some(entries[p as int].1),
        None => None,
    }
}

/// Reading a step map: `None` at the end, the item otherwise, or a diagnostic.
pub open spec fn decode_step_spec(h: HeapV, v: ValueV) -> Result<Option<ValueV>, Seq<char>> {
    match v {
        ValueV::Table(id) => if !h.has_map(id) {
            Err("std/iter could not inspect iterator step"@)
        } else {
            let entries = h.maps[id as int];
            let item = match string_field(entries, "value"@) {
                Some(x) => x,
                None => ValueV::Nil,
            };
            match string_field(entries, "done"@) {
                Some(ValueV::Bool(true)) => Ok(None),
                Some(ValueV::Bool(false)) => Ok(Some(item)),
                Some(other) => Err("std/iter step field `done` must be boolean, got "@ + kind_name_of(other)),
                None => Err("std/iter iterator step is missing boolean field `done`"@),
            }
        },
        _ => Err("std/iter iterator must return a step map, got "@ + kind_name_of(v)),
    }
}

/// What a control map asks: `Ok((true, value))` to stop, `Ok((false, value))` to go on, or a
/// diagnostic that names the operation.
pub open spec fn decode_control_spec(h: HeapV, v: ValueV, operation: Seq<char>) -> Result<(bool, ValueV), Seq<char>> {
    let prefix = "std/iter."@ + operation;
    match v {
        ValueV::Table(id) => if !h.has_map(id) {
            Err(prefix + " could not inspect callback control"@)
        } else {
            let entries = h.maps[id as int];
            let payload = match string_field(entries, "value"@) {
                Some(x) => x,
                None => ValueV::Nil,
            };
            match string_field(entries, "control"@) {
                Some(ValueV::String(c)) => if c == "continue"@ {
                    Ok((false, payload))
                } else if c == "break"@ {
                    Ok((true, payload))
                } else {
                    Err(prefix + " callback control must be `break` or `continue`, got `"@ + c + "`"@)
                },
                Some(other) => Err(prefix + " callback field `control` must be a string, got "@ + kind_name_of(other)),
                None => Err(prefix + " callback control is missing field `control`"@),
            }
        },
        _ => Err(prefix + " callback must return a control map, got "@ + kind_name_of(v)),
    }
}

/// The entries of a step map.
pub open spec fn step_entries(item: Option<ValueV>) -> Seq<(MapKeyV, ValueV)> {
    match item {
        None => seq![(MapKeyV::String("done"@), ValueV::Bool(true))],
        Some(v) => if v is Nil {
            seq![(MapKeyV::String("done"@), ValueV::Bool(false))]
        } else {
            seq![(MapKeyV::String("done"@), ValueV::Bool(false)), (MapKeyV::String("value"@), v)]
        },
    }
}

/// The model of a step.
pub open spec fn step_view(step: IteratorStep) -> Option<ValueV> {
    match step {
        IteratorStep::Done => None,
        IteratorStep::Item(v) => Some(v@),
    }
}

/// A step map made for a step reads back as that step.
pub proof fn lemma_step_round_trip(h: HeapV, item: Option<ValueV>)
    requires
        h.maps.len() < usize::MAX,
    ensures
        decode_step_spec(
            HeapV { lists: h.lists, maps: h.maps.push(step_entries(item)) },
            ValueV::Table(h.maps.len() as usize),
        ) == Ok::<Option<ValueV>, Seq<char>>(item),
{
    let entries = step_entries(item);
    reveal_strlit("done");
    reveal_strlit("value");
    assert("done"@ != "value"@) by {
        assert("done"@[0] != "value"@[0]);
    }
    assert(entry_position(entries, MapKeyV::String("done"@), 0) == Some(0nat));
    match item {
        Some(v) => if !(v is Nil) {
            assert(entry_position(entries, MapKeyV::String("value"@), 1) == Some(1nat));
            assert(entry_position(entries, MapKeyV::String("value"@), 0) == Some(1nat));
        } else {
            assert(entry_position(entries, MapKeyV::String("value"@), 1) is None);
        },
        None => {
            assert(entry_position(entries, MapKeyV::String("value"@), 1) is None);
        },
    }
}

/// The value of the first entry whose key is the string `name`.
fn map_string_field(entries: &Vec<(MapKey, Value)>, name: &str) -> (r: Option<Value>)
    ensures
        match string_field(entries_view(entries@), name@) {
            Some(v) => r is Some && r->Some_0@ == v,
            None => r is None,
        },
{
    let key = MapKey::String(name.to_string());
    match find_entry(entries, &key) {
        Some(p) => {
            assert(entries_view(entries@)[p as int].1 == entries@[p as int].1@);
            Some(entries[p].1.copy())
        },
        None => None,
    }
}

/// A hard error located at `span`.
fn contract_error(span: Span, message: String) -> (e: EvaluationError)
    ensures
        e matches EvaluationError::Runtime(error) && error.span == span && error.message@ == message@,
{
    EvaluationError::Runtime(RuntimeError::new(span, message))
}

/// Reads the step map an iterator returned.
pub fn decode_step(heap: &Heap, value: &Value, span: Span) -> (r: Result<IteratorStep, EvaluationError>)
    ensures
        match decode_step_spec(heap@, value@) {
            Ok(item) => r is Ok && step_view(r->Ok_0) == item,
            Err(m) => r matches Err(EvaluationError::Runtime(e)) && e.message@ == m && e.span == span,
        },
{
    let map = match value {
        Value::Table(m) => *m,
        other => {
            let mut message = "std/iter iterator must return a step map, got ".to_string();
            push_str(&mut message, other.kind_name());
            return Err(contract_error(span, message));
        },
    };
    if !heap.has_map(map) {
        return Err(contract_error(span, "std/iter could not inspect iterator step".to_string()));
    }
    let entries = heap.map_entries(map);
    let done = map_string_field(entries, "done");
    let item = match map_string_field(entries, "value") {
        Some(v) => v,
        None => Value::Nil,
    };
    match done {
        Some(Value::Bool(true)) => Ok(IteratorStep::Done),
        Some(Value::Bool(false)) => Ok(IteratorStep::Item(item)),
        Some(other) => {
            let mut message = "std/iter step field `done` must be boolean, got ".to_string();
            push_str(&mut message, other.kind_name());
            Err(contract_error(span, message))
        },
        None => Err(contract_error(span, "std/iter iterator step is missing boolean field `done`".to_string())),
    }
}

/// Reads the control map a callback returned for `operation`.
pub fn decode_control(heap: &Heap, value: &Value, operation: &str, span: Span) -> (r: Result<IteratorControl, EvaluationError>)
    ensures
        match decode_control_spec(heap@, value@, operation@) {
            Ok((stop, payload)) => match r {
                Ok(IteratorControl::Break(v)) => stop && v@ == payload,
                Ok(IteratorControl::Continue(v)) => !stop && v@ == payload,
                Err(_) => false,
            },
            Err(m) => r matches Err(EvaluationError::Runtime(e)) && e.message@ == m && e.span == span,
        },
{
    let mut prefix = "std/iter.".to_string();
    push_str(&mut prefix, operation);
    let map = match value {
        Value::Table(m) => *m,
        other => {
            push_str(&mut prefix, " callback must return a control map, got ");
            push_str(&mut prefix, other.kind_name());
            return Err(contract_error(span, prefix));
        },
    };
    if !heap.has_map(map) {
        push_str(&mut prefix, " could not inspect callback control");
        return Err(contract_error(span, prefix));
    }
    let entries = heap.map_entries(map);
    let control = map_string_field(entries, "control");
    let payload = match map_string_field(entries, "value") {
        Some(v) => v,
        None => Value::Nil,
    };
    match control {
        Some(Value::String(c)) => {
            if str_equal(c.as_str(), "continue") {
                Ok(IteratorControl::Continue(payload))
            } else if str_equal(c.as_str(), "break") {
                Ok(IteratorControl::Break(payload))
            } else {
                push_str(&mut prefix, " callback control must be `break` or `continue`, got `");
                push_str(&mut prefix, c.as_str());
                push_str(&mut prefix, "`");
                Err(contract_error(span, prefix))
            }
        },
        Some(other) => {
            push_str(&mut prefix, " callback field `control` must be a string, got ");
            push_str(&mut prefix, other.kind_name());
            Err(contract_error(span, prefix))
        },
        None => {
            push_str(&mut prefix, " callback control is missing field `control`");
            Err(contract_error(span, prefix))
        },
    }
}

/// The entries of the step map for a step.
fn step_map_entries(step: IteratorStep) -> (entries: Vec<(MapKey, Value)>)
    ensures
        entries_view(entries@) == step_entries(step_view(step)),
{
    let mut entries: Vec<(MapKey, Value)> = Vec::new();
    match step {
        IteratorStep::Done => {
            entries.push((MapKey::String("done".to_string()), Value::Bool(true)));
        },
        IteratorStep::Item(value) => {
            entries.push((MapKey::String("done".to_string()), Value::Bool(false)));
            if !value.is_nil() {
                entries.push((MapKey::String("value".to_string()), value));
            }
        },
    }
    proof {
        assert(entries_view(entries@) =~= step_entries(step_view(step)));
    }
    entries
}

/// A new step map for a step; an item that is `nil` has no `value` entry.
pub fn step_value(heap: &mut Heap, step: IteratorStep) -> (v: Value)
    ensures
        v@ == ValueV::Table(old(heap)@.maps.len() as usize),
        final(heap)@.maps == old(heap)@.maps.push(step_entries(step_view(step))),
        final(heap)@.lists == old(heap)@.lists,
{
    let entries = step_map_entries(step);
    heap.map(entries)
}

/// A new step map of `zip_longest`, which also records which side has ended.
pub fn longest_step_value(heap: &mut Heap, step: IteratorStep, left_done: bool, right_done: bool) -> (v: Value)
    ensures
        v@ == ValueV::Table(old(heap)@.maps.len() as usize),
        final(heap)@.maps == old(heap)@.maps.push(
            step_entries(step_view(step)) + seq![
                (MapKeyV::String("left_done"@), ValueV::Bool(left_done)),
                (MapKeyV::String("right_done"@), ValueV::Bool(right_done)),
            ],
        ),
        final(heap)@.lists == old(heap)@.lists,
{
    let ghost base = step_entries(step_view(step));
    let mut entries = step_map_entries(step);
    entries.push((MapKey::String("left_done".to_string()), Value::Bool(left_done)));
    entries.push((MapKey::String("right_done".to_string()), Value::Bool(right_done)));
    proof {
        assert(entries_view(entries@) =~= base + seq![
            (MapKeyV::String("left_done"@), ValueV::Bool(left_done)),
            (MapKeyV::String("right_done"@), ValueV::Bool(right_done)),
        ]);
    }
    heap.map(entries)
}

/// Checks the count of `take` and `drop`: a nonnegative integer.
pub fn validate_count(value: &Value, span: Span) -> (r: Result<Value, EvaluationError>)
    ensures
        match value@ {
            ValueV::Int(n) => if n >= 0 {
                r matches Ok(v) && v@ == ValueV::Nil
            } else {
                r matches Err(EvaluationError::Runtime(e)) && e.span == span && e.message@
                    == "std/iter count must be nonnegative, got "@ + int_decimal(n as int)
            },
            _ => r matches Err(EvaluationError::Runtime(e)) && e.span == span && e.message@
                == "std/iter count must be a nonnegative integer, got "@ + kind_name_of(value@),
        },
{
    match value {
        Value::Int(count) => if *count >= 0 {
            Ok(Value::Nil)
        } else {
            let mut message = "std/iter count must be nonnegative, got ".to_string();
            push_i64_decimal(&mut message, *count);
            Err(contract_error(span, message))
        },
        other => {
            let mut message = "std/iter count must be a nonnegative integer, got ".to_string();
            push_str(&mut message, other.kind_name());
            Err(contract_error(span, message))
        },
    }
}

/// Checks the bounds of `range`: exactly two integers.
pub fn validate_range(arguments: &[Value], span: Span) -> (r: Result<Value, EvaluationError>)
    ensures
        if arguments@.len() == 2 && arguments@[0] is Int && arguments@[1] is Int {
            r matches Ok(v) && v@ == ValueV::Nil
        } else {
            r matches Err(EvaluationError::Runtime(e)) && e.span == span && e.message@
                == "std/iter.range bounds must be integers"@
        },
{
    if arguments.len() == 2 && matches!(arguments[0], Value::Int(_)) && matches!(arguments[1], Value::Int(_)) {
        Ok(Value::Nil)
    } else {
        Err(contract_error(span, "std/iter.range bounds must be integers".to_string()))
    }
}

/// The error for a predicate of `operation` that returned something other than a boolean.
pub fn predicate_error(operation: &str, value: &Value, span: Span) -> (e: EvaluationError)
    ensures
        e matches EvaluationError::Runtime(error) && error.span == span && error.message@
            == "std/iter."@ + operation@ + " predicate must return a boolean, got "@ + kind_name_of(value@),
{
    let mut message = "std/iter.".to_string();
    push_str(&mut message, operation);
    push_str(&mut message, " predicate must return a boolean, got ");
    push_str(&mut message, value.kind_name());
    contract_error(span, message)
}

/// The control map `{control = c, value = v}`.
pub open spec fn control_entries(c: Seq<char>, v: ValueV) -> Seq<(MapKeyV, ValueV)> {
    seq![(MapKeyV::String("control"@), ValueV::String(c)), (MapKeyV::String("value"@), v)]
}

/// A control map's payload is its `value` entry, whichever control it names: `{control =
/// "break", value = v}` stops with `v`, `{control = "continue", value = v}` goes on with `v`, and
/// a map with only a `control` entry carries `nil`.
pub proof fn lemma_control_payload(h: HeapV, id: usize, v: ValueV, operation: Seq<char>)
    requires
        h.has_map(id),
    ensures
        h.maps[id as int] == control_entries("break"@, v) ==> decode_control_spec(h, ValueV::Table(id), operation)
            == Ok::<(bool, ValueV), Seq<char>>((true, v)),
        h.maps[id as int] == control_entries("continue"@, v) ==> decode_control_spec(h, ValueV::Table(id), operation)
            == Ok::<(bool, ValueV), Seq<char>>((false, v)),
        h.maps[id as int] == seq![(MapKeyV::String("control"@), ValueV::String("break"@))]
            ==> decode_control_spec(h, ValueV::Table(id), operation) == Ok::<(bool, ValueV), Seq<char>>(
            (true, ValueV::Nil),
        ),
{
    reveal_strlit("control");
    reveal_strlit("value");
    reveal_strlit("break");
    reveal_strlit("continue");
    let e = h.maps[id as int];
    reveal_with_fuel(entry_position, 3);
    assert("control"@ != "value"@) by {
        assert("control"@[0] != "value"@[0]);
    }
    assert("continue"@ != "break"@) by {
        assert("continue"@[0] != "break"@[0]);
    }
    if e == control_entries("break"@, v) || e == control_entries("continue"@, v) {
        assert(!same_key(e[0].0, MapKeyV::String("value"@)));
        assert(same_key(e[1].0, MapKeyV::String("value"@)));
        assert(entry_position(e, MapKeyV::String("value"@), 0) == Some(1nat));
        assert(entry_position(e, MapKeyV::String("control"@), 0) == Some(0nat));
    }
    if e == seq![(MapKeyV::String("control"@), ValueV::String("break"@))] {
        assert(!same_key(e[0].0, MapKeyV::String("value"@)));
        assert(entry_position(e, MapKeyV::String("value"@), 0) is None);
        assert(entry_position(e, MapKeyV::String("control"@), 0) == Some(0nat));
    }
}

} // verus!
