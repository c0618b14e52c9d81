//! Reading through an index, and assigning to a name or through an index. An assignment is
//! prepared first (the target checked) and committed after the assigned value is known; the
//! commit checks the target again, since evaluating the value may have changed the container.
use vstd::prelude::*;
use crate::environment::{assign_spec, binding, Environment, Environments, EnvironmentsV};
use crate::error::{Raised, RuntimeError};
use crate::evaluation::{failure_model, failure_span, EvaluationError};
use crate::heap::{Heap, HeapV};
use crate::keys::key_of;
use crate::native::support::{bounds_raise, NativeModel};
use crate::span::Span;
use crate::text::{int_decimal, push_i64_decimal, push_str};
use crate::value::{entries_view, kind_name_of, same_key, values_view, ListRef, MapKey, MapKeyV, MapRef, Value, ValueV};

verus! {

/// The list position a key denotes: the key itself and the position, or a diagnostic.
pub open spec fn list_index_spec(key: ValueV) -> Result<(i64, usize), Seq<char>> {
    match key {
        ValueV::Int(i) => if i < 0 {
            Err("list index must be nonnegative, got "@ + int_decimal(i as int))
        } else if i > usize::MAX {
            Err("list index is too large"@)
        } else {
            Ok((i, i as usize))
        },
        _ => Err("list index must be an integer, got "@ + kind_name_of(key)),
    }
}

/// The first position from `k` on of an entry whose key is `key`.
pub open spec fn entry_position(entries: Seq<(MapKeyV, ValueV)>, key: MapKeyV, k: nat) -> Option<nat>
    decreases entries.len() - k,
{
    if k >= entries.len() {
        None
    } else if same_key(entries[k as int].0, key) {
        Some(k)
    } else {
        entry_position(entries, key, k + 1)
    }
}

/// What indexing `object` by `key` reads: an element, the value of an entry, `nil` for a
/// position or key that is absent, or a diagnostic.
pub open spec fn read_index_spec(h: HeapV, object: ValueV, key: ValueV) -> Result<ValueV, Seq<char>> {
    match object {
        ValueV::List(id) => match list_index_spec(key) {
            Err(m) => Err(m),
            Ok((_, index)) => if !h.has_list(id) {
                Err("could not borrow list for indexing"@)
            } else if index < h.lists[id as int].len() {
                Ok(h.lists[id as int][index as int])
            } else {
                Ok(ValueV::Nil)
            },
        },
        ValueV::Table(id) => match key_of(key) {
            Err(m) => Err(m),
            Ok(k) => if !h.has_map(id) {
                Err("could not borrow table for indexing"@)
            } else {
                match entry_position(h.maps[id as int], k, 0) {
                    Some(p) => Ok(h.maps[id as int][p as int].1),
                    None => Ok(ValueV::Nil),
                }
            },
        },
        _ => Err("indexing requires a list or table, got "@ + kind_name_of(object)),
    }
}

/// A checked assignment target.
#[derive(Debug)]
pub enum PreparedTarget {
    Variable { name: String, span: Span },
    List { list: ListRef, raw_index: i64, index: usize, span: Span },
    Table { map: MapRef, key: MapKey, span: Span },
}

/// The model of an assignment target.
pub enum TargetV {
    Variable(Seq<char>),
    List(usize, i64, usize),
    Table(usize, MapKeyV),
}

/// The model of an assignment target.
pub open spec fn target_view(t: PreparedTarget) -> TargetV {
    match t {
        PreparedTarget::Variable { name, .. } => TargetV::Variable(name@),
        PreparedTarget::List { list, raw_index, index, .. } => TargetV::List(list.id, raw_index, index),
        PreparedTarget::Table { map, key, .. } => TargetV::Table(map.id, key@),
    }
}

/// Where an assignment target is.
pub open spec fn target_span(t: PreparedTarget) -> Span {
    match t {
        PreparedTarget::Variable { span, .. } => span,
        PreparedTarget::List { span, .. } => span,
        PreparedTarget::Table { span, .. } => span,
    }
}

/// Checking `object[key]` as an assignment target: the target, or the failure, and the heap
/// after the check (a position outside a list raises a new map).
pub open spec fn prepare_index_spec(h: HeapV, object: ValueV, key: ValueV) -> (Result<TargetV, NativeModel>, HeapV) {
    match object {
        ValueV::List(id) => match list_index_spec(key) {
            Err(m) => (Err(NativeModel::Fails(m)), h),
            Ok((raw, index)) => if !h.has_list(id) {
                (Err(NativeModel::Fails("could not borrow list for assignment"@)), h)
            } else if index >= h.lists[id as int].len() {
                let (model, h2) = bounds_raise(h, raw, h.lists[id as int].len());
                (Err(model), h2)
            } else {
                (Ok(TargetV::List(id, raw, index)), h)
            },
        },
        ValueV::Table(id) => match key_of(key) {
            Err(m) => (Err(NativeModel::Fails(m)), h),
            Ok(k) => if !h.has_map(id) {
                (Err(NativeModel::Fails("could not borrow table for assignment"@)), h)
            } else {
                (Ok(TargetV::Table(id, k)), h)
            },
        },
        _ => (
            Err(NativeModel::Fails("assignment target must be a list or table, got "@ + kind_name_of(object))),
            h,
        ),
    }
}

/// The entries of a map after storing `value` under `key`: `nil` removes the first entry with
/// the key, another value replaces that entry's value in place or is appended.
pub open spec fn table_store(entries: Seq<(MapKeyV, ValueV)>, key: MapKeyV, value: ValueV) -> Seq<(MapKeyV, ValueV)> {
    match entry_position(entries, key, 0) {
        Some(p) => if value is Nil {
            entries.remove(p as int)
        } else {
            entries.update(p as int, (entries[p as int].0, value))
        },
        None => if value is Nil {
            entries
        } else {
            entries.push((key, value))
        },
    }
}

/// Committing an assignment of `value` to a prepared target: the outcome, the heap after it and
/// the environments after it.
pub open spec fn commit_spec(h: HeapV, e: EnvironmentsV, env: usize, target: TargetV, value: ValueV) -> (NativeModel, HeapV, EnvironmentsV) {
    match target {
        TargetV::Variable(name) => if binding(e, env, name) is Some {
            (NativeModel::Returns(value), h, assign_spec(e, env, name, value))
        } else {
            (NativeModel::Fails("cannot assign to undefined name `"@ + name + "`"@), h, e)
        },
        TargetV::List(id, raw, index) => if !h.has_list(id) {
            (NativeModel::Fails("could not borrow list for assignment"@), h, e)
        } else if index >= h.lists[id as int].len() {
            let (model, h2) = bounds_raise(h, raw, h.lists[id as int].len());
            (model, h2, e)
        } else {
            (
                NativeModel::Returns(value),
                HeapV { lists: h.lists.update(id as int, h.lists[id as int].update(index as int, value)), maps: h.maps },
                e,
            )
        },
        TargetV::Table(id, key) => if !h.has_map(id) {
            (NativeModel::Fails("could not borrow table for assignment"@), h, e)
        } else {
            (
                NativeModel::Returns(value),
                HeapV { lists: h.lists, maps: h.maps.update(id as int, table_store(h.maps[id as int], key, value)) },
                e,
            )
        },
    }
}

/// The model of an evaluation result.
pub open spec fn result_model(r: Result<Value, EvaluationError>) -> NativeModel {
    match r {
        Ok(v) => NativeModel::Returns(v@),
        Err(e) => failure_model(e),
    }
}

/// Where the first entry with a key is: at or after `k`, matching, with no match before it; or
/// no entry from `k` on matches.
pub proof fn lemma_entry_position(entries: Seq<(MapKeyV, ValueV)>, key: MapKeyV, k: nat)
    ensures
        match entry_position(entries, key, k) {
            Some(p) => k <= p < entries.len() && same_key(entries[p as int].0, key) && forall|i: int|
                k <= i < p ==> !same_key(#[trigger] entries[i].0, key),
            None => forall|i: int| k <= i < entries.len() ==> !same_key(#[trigger] entries[i].0, key),
        },
    decreases entries.len() - k,
{
    if k < entries.len() && !same_key(entries[k as int].0, key) {
        lemma_entry_position(entries, key, k + 1);
    }
}

/// Two keys that both denote the entry of a third denote the same entry.
proof fn lemma_same_key_shared(a: MapKeyV, b: MapKeyV, k: MapKeyV)
    ensures
        same_key(a, k) && same_key(b, k) ==> same_key(a, b),
{
}

/// Whether no two entries of a map have the same key, as every map the language builds.
pub open spec fn distinct_keys(entries: Seq<(MapKeyV, ValueV)>) -> bool {
    forall|i: int, j: int| 0 <= i < j < entries.len() ==> !same_key(#[trigger] entries[i].0, #[trigger] entries[j].0)
}

/// What reading through an index gives back after an assignment through the same index: the
/// value assigned, except that assigning `nil` to a map entry removes it, so that reading it
/// gives `nil`.
pub proof fn lemma_read_after_assignment(
    h: HeapV,
    e: EnvironmentsV,
    env: usize,
    object: ValueV,
    key: ValueV,
    value: ValueV,
)
    requires
        prepare_index_spec(h, object, key).0 is Ok,
        commit_spec(h, e, env, prepare_index_spec(h, object, key).0->Ok_0, value).0 is Returns,
        object matches ValueV::Table(id) ==> distinct_keys(h.maps[id as int]),
    ensures
        read_index_spec(
            commit_spec(h, e, env, prepare_index_spec(h, object, key).0->Ok_0, value).1,
            object,
            key,
        ) == Ok::<ValueV, Seq<char>>(value),
{
    let target = prepare_index_spec(h, object, key).0->Ok_0;
    let h2 = commit_spec(h, e, env, target, value).1;
    match object {
        ValueV::List(id) => {
            let (raw, index) = list_index_spec(key)->Ok_0;
            assert(target == TargetV::List(id, raw, index));
            assert(index < h.lists[id as int].len());
            assert(h2.lists == h.lists.update(id as int, h.lists[id as int].update(index as int, value)));
            assert(h2.lists[id as int][index as int] == value);
        },
        ValueV::Table(id) => {
            let k = target->Table_1;
            let entries = h.maps[id as int];
            let stored = table_store(entries, k, value);
            assert(h2.maps[id as int] == stored);
            lemma_entry_position(entries, k, 0);
            lemma_entry_position(stored, k, 0);
            match entry_position(entries, k, 0) {
                Some(p) => {
                    if value is Nil {
                        assert forall|i: int| 0 <= i < stored.len() implies !same_key(#[trigger] stored[i].0, k) by {
                            if i < p {
                                assert(stored[i] == entries[i]);
                            } else {
                                assert(stored[i] == entries[i + 1]);
                                assert(!same_key(entries[p as int].0, entries[i + 1].0));
                                lemma_same_key_shared(entries[p as int].0, entries[i + 1].0, k);
                            }
                        }
                    } else {
                        assert forall|i: int| 0 <= i < p implies !same_key(#[trigger] stored[i].0, k) by {
                            assert(stored[i] == entries[i]);
                        }
                        assert(same_key(stored[p as int].0, k));
                        match entry_position(stored, k, 0) {
                            Some(q) => {
                                if q < p {
                                    assert(!same_key(stored[q as int].0, k));
                                }
                                if q > p {
                                    assert(!same_key(stored[p as int].0, k));
                                }
                            },
                            None => {
                                assert(!same_key(stored[p as int].0, k));
                            },
                        }
                        assert(stored[p as int].1 == value);
                    }
                },
                None => {
                    if !(value is Nil) {
                        assert forall|i: int| 0 <= i < entries.len() implies !same_key(#[trigger] stored[i].0, k) by {
                            assert(stored[i] == entries[i]);
                        }
                        assert(stored[entries.len() as int] == (k, value));
                        assert(same_key(k, k));
                        match entry_position(stored, k, 0) {
                            Some(q) => {
                                if q < entries.len() {
                                    assert(!same_key(stored[q as int].0, k));
                                }
                            },
                            None => {
                                assert(!same_key(stored[entries.len() as int].0, k));
                            },
                        }
                    }
                },
            }
            assert(key_of(key) == Ok::<MapKeyV, Seq<char>>(k));
        },
        _ => {},
    }
}

/// A raise of the index-out-of-bounds map, or the hard error when the length does not fit.
fn bounds_failure(heap: &mut Heap, raw_index: i64, length: usize, span: Span) -> (r: EvaluationError)
    ensures
        (failure_model(r), final(heap)@) == bounds_raise(old(heap)@, raw_index, length as nat),
        failure_span(r) == span,
        r is Runtime || r is Raised,
        r matches EvaluationError::Raised(raised) ==> raised.frames@.len() == 0 && raised.cause is None,
{
    match Raised::index_out_of_bounds(heap, raw_index, length, span) {
        Ok(raised) => {
            proof {
                assert(final(heap)@ =~= bounds_raise(old(heap)@, raw_index, length as nat).1);
            }
            EvaluationError::Raised(raised)
        },
        Err(error) => EvaluationError::Runtime(error),
    }
}

/// The list position a key denotes.
pub fn list_index(key: &Value, span: Span) -> (r: Result<(i64, usize), RuntimeError>)
    ensures
        match list_index_spec(key@) {
            Ok(p) => r == Ok::<(i64, usize), RuntimeError>(p),
            Err(m) => r is Err && r->Err_0.message@ == m && r->Err_0.span == span,
        },
{
    match key {
        Value::Int(index) => {
            if *index < 0 {
                let mut message = "list index must be nonnegative, got ".to_string();
                push_i64_decimal(&mut message, *index);
                Err(RuntimeError::new(span, message))
            } else if *index as u64 > usize::MAX as u64 {
                Err(RuntimeError::new(span, "list index is too large".to_string()))
            } else {
                Ok((*index, *index as usize))
            }
        },
        other => {
            let mut message = "list index must be an integer, got ".to_string();
            push_str(&mut message, other.kind_name());
            Err(RuntimeError::new(span, message))
        },
    }
}

/// The first position of an entry whose key is `key`.
pub fn find_entry(entries: &Vec<(MapKey, Value)>, key: &MapKey) -> (r: Option<usize>)
    ensures
        r matches Some(p) ==> p < entries@.len() && entry_position(entries_view(entries@), key@, 0)
            == Some(p as nat),
        r is None ==> entry_position(entries_view(entries@), key@, 0) is None,
{
    let ghost view = entries_view(entries@);
    let mut i: usize = 0;
    while i < entries.len()
        invariant
            i <= entries@.len() == view.len(),
            view == entries_view(entries@),
            entry_position(view, key@, 0) == entry_position(view, key@, i as nat),
        decreases entries@.len() - i,
    {
        assert(view[i as int].0 == entries@[i as int].0@);
        if entries[i].0.matches(key) {
            return Some(i);
        }
        i = i + 1;
    }
    None
}

/// Reads `object[key]`: an element of a list, the value of a map entry, or `nil` where there is
/// none.
pub fn read_index(heap: &Heap, object: &Value, key: &Value, span: Span) -> (r: Result<Value, RuntimeError>)
    ensures
        match read_index_spec(heap@, object@, key@) {
            Ok(v) => r is Ok && r->Ok_0@ == v,
            Err(m) => r is Err && r->Err_0.message@ == m && r->Err_0.span == span,
        },
{
    match object {
        Value::List(list) => {
            let (_, index) = list_index(key, span)?;
            if !heap.has_list(*list) {
                return Err(RuntimeError::new(span, "could not borrow list for indexing".to_string()));
            }
            let values = heap.list_values(*list);
            if index < values.len() {
                assert(values_view(values@)[index as int] == values@[index as int]@);
                Ok(values[index].copy())
            } else {
                Ok(Value::Nil)
            }
        },
        Value::Table(map) => {
            let map_key = MapKey::from_value(key, span)?;
            if !heap.has_map(*map) {
                return Err(RuntimeError::new(span, "could not borrow table for indexing".to_string()));
            }
            let entries = heap.map_entries(*map);
            match find_entry(entries, &map_key) {
                Some(p) => {
                    assert(entries_view(entries@)[p as int].1 == entries@[p as int].1@);
                    Ok(entries[p].1.copy())
                },
                None => Ok(Value::Nil),
            }
        },
        other => {
            let mut message = "indexing requires a list or table, got ".to_string();
            push_str(&mut message, other.kind_name());
            Err(RuntimeError::new(span, message))
        },
    }
}

/// Checks `object[key]` as an assignment target. A position outside a list raises the
/// index-out-of-bounds map.
pub fn prepare_index_target(heap: &mut Heap, object: &Value, key: &Value, span: Span) -> (r: Result<PreparedTarget, EvaluationError>)
    ensures
        (
            match r {
                Ok(t) => Ok(target_view(t)),
                Err(e) => Err(failure_model(e)),
            },
            final(heap)@,
        ) == prepare_index_spec(old(heap)@, object@, key@),
        r matches Ok(t) ==> target_span(t) == span,
        r matches Err(e) ==> failure_span(e) == span && (e is Runtime || e is Raised),
{
    match object {
        Value::List(list) => {
            let (raw_index, index) = match list_index(key, span) {
                Ok(p) => p,
                Err(error) => return Err(EvaluationError::Runtime(error)),
            };
            if !heap.has_list(*list) {
                return Err(EvaluationError::Runtime(
                    RuntimeError::new(span, "could not borrow list for assignment".to_string()),
                ));
            }
            let length = heap.list_values(*list).len();
            if index >= length {
                return Err(bounds_failure(heap, raw_index, length, span));
            }
            Ok(PreparedTarget::List { list: ListRef { id: list.id }, raw_index, index, span })
        },
        Value::Table(map) => {
            let map_key = match MapKey::from_value(key, span) {
                Ok(k) => k,
                Err(error) => return Err(EvaluationError::Runtime(error)),
            };
            if !heap.has_map(*map) {
                return Err(EvaluationError::Runtime(
                    RuntimeError::new(span, "could not borrow table for assignment".to_string()),
                ));
            }
            Ok(PreparedTarget::Table { map: MapRef { id: map.id }, key: map_key, span })
        },
        other => {
            let mut message = "assignment target must be a list or table, got ".to_string();
            push_str(&mut message, other.kind_name());
            Err(EvaluationError::Runtime(RuntimeError::new(span, message)))
        },
    }
}

/// Stores `value` under `key` in a map's entries.
fn store_entry(entries: &mut Vec<(MapKey, Value)>, key: MapKey, value: Value)
    ensures
        entries_view(final(entries)@) == table_store(entries_view(old(entries)@), key@, value@),
{
    let ghost before = entries_view(entries@);
    match find_entry(entries, &key) {
        Some(p) => {
            if value.is_nil() {
                entries.remove(p);
                proof {
                    assert(entries_view(entries@) =~= before.remove(p as int));
                }
            } else {
                let existing = entries[p].0.copy();
                entries.set(p, (existing, value));
                proof {
                    assert(entries_view(entries@) =~= before.update(p as int, (before[p as int].0, value@)));
                }
            }
        },
        None => {
            if !value.is_nil() {
                entries.push((key, value));
                proof {
                    assert(entries_view(entries@) =~= before.push((key@, value@)));
                }
            }
        },
    }
}

/// Assigns `value` to a prepared target and returns it. A list position that no longer exists
/// raises the index-out-of-bounds map; a name that is not bound is a hard error.
pub fn commit_assignment(
    heap: &mut Heap,
    environments: &mut Environments,
    env: Environment,
    target: PreparedTarget,
    value: Value,
) -> (r: Result<Value, EvaluationError>)
    requires
        old(environments).wf(),
        old(environments).has(env),
    ensures
        final(environments).wf(),
        (result_model(r), final(heap)@, final(environments)@) == commit_spec(
            old(heap)@,
            old(environments)@,
            env.frame,
            target_view(target),
            value@,
        ),
        r matches Err(e) ==> failure_span(e) == target_span(target) && (e is Runtime || e is Raised),
{
    match target {
        PreparedTarget::Variable { name, span } => {
            if !environments.assign(env, name.as_str(), value.copy()) {
                let mut message = "cannot assign to undefined name `".to_string();
                push_str(&mut message, name.as_str());
                push_str(&mut message, "`");
                return Err(EvaluationError::Runtime(RuntimeError::new(span, message)));
            }
            Ok(value)
        },
        PreparedTarget::List { list, raw_index, index, span } => {
            if !heap.has_list(list) {
                return Err(EvaluationError::Runtime(
                    RuntimeError::new(span, "could not borrow list for assignment".to_string()),
                ));
            }
            let length = heap.list_values(list).len();
            if index >= length {
                return Err(bounds_failure(heap, raw_index, length, span));
            }
            let mut values = heap.take_list(list);
            let stored = value.copy();
            values.set(index, stored);
            heap.put_list(list, values);
            proof {
                let h = old(heap)@;
                assert(values_view(values@) =~= h.lists[list.id as int].update(index as int, value@));
                assert(heap@.lists =~= h.lists.update(list.id as int, h.lists[list.id as int].update(index as int, value@)));
            }
            Ok(value)
        },
        PreparedTarget::Table { map, key, span } => {
            if !heap.has_map(map) {
                return Err(EvaluationError::Runtime(
                    RuntimeError::new(span, "could not borrow table for assignment".to_string()),
                ));
            }
            let mut entries = heap.take_map(map);
            store_entry(&mut entries, key, value.copy());
            heap.put_map(map, entries);
            proof {
                let h = old(heap)@;
                assert(heap@.maps =~= h.maps.update(map.id as int, table_store(h.maps[map.id as int], target_view(target)->Table_1, value@)));
            }
            Ok(value)
        },
    }
}

} // verus!
