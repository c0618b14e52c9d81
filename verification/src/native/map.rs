//! `std/map`: inspection of insertion-ordered maps.
use vstd::prelude::*;
use crate::error::{NativeResult, RuntimeError, RuntimeResult};
use crate::heap::{Heap, HeapV};
use crate::keys::key_of;
use crate::span::Span;
use crate::text::push_str;
use crate::value::{entries_view, key_value, same_key, values_view, MapKey, MapKeyV, MapRef, Value, ValueV};
use crate::native::support::{
    arity_message, borrow_error, category_error, category_message, expect_arity, located,
    native_model, qualified, qualified_text, NativeModel,
};

verus! {

/// The module name used in diagnostics.
pub open spec fn module() -> Seq<char> {
    "std/map"@
}

/// Diagnostic for a map that the heap cannot lend.
pub open spec fn unborrowable(name: Seq<char>) -> Seq<char> {
    qualified(module(), name) + " could not borrow "@ + "map"@
}

/// The arity and map-argument checks shared by the map operations, and the map they yield.
pub open spec fn precheck(h: HeapV, args: Seq<ValueV>, expected: nat, name: Seq<char>) -> Result<
    usize,
    Seq<char>,
> {
    if args.len() != expected {
        Err(arity_message(module(), name, expected, args.len(), false))
    } else if !(args[0] is Table) {
        Err(category_message(module(), name, " requires a map, got "@, args[0]))
    } else {
        Ok(args[0]->Table_0)
    }
}

/// `length(map)`: the number of entries.
pub open spec fn length_spec(h: HeapV, args: Seq<ValueV>) -> (NativeModel, HeapV) {
    match precheck(h, args, 1, "length"@) {
        Err(m) => (NativeModel::Fails(m), h),
        Ok(id) => if !h.has_map(id) {
            (NativeModel::Fails(unborrowable("length"@)), h)
        } else if h.maps[id as int].len() > i64::MAX {
            (NativeModel::Fails("map length exceeds i64"@), h)
        } else {
            (NativeModel::Returns(ValueV::Int(h.maps[id as int].len() as i64)), h)
        },
    }
}

/// `copy(map)`: a new map with the same entries in the same order.
pub open spec fn copy_spec(h: HeapV, args: Seq<ValueV>) -> (NativeModel, HeapV) {
    match precheck(h, args, 1, "copy"@) {
        Err(m) => (NativeModel::Fails(m), h),
        Ok(id) => if !h.has_map(id) {
            (NativeModel::Fails(unborrowable("copy"@)), h)
        } else {
            (
                NativeModel::Returns(ValueV::Table(h.maps.len() as usize)),
                HeapV { lists: h.lists, maps: h.maps.push(h.maps[id as int]) },
            )
        },
    }
}

/// Whether an entry for `key` with a value other than `nil` exists.
pub open spec fn has_entry(entries: Seq<(MapKeyV, ValueV)>, key: MapKeyV) -> bool {
    exists|i: int| 0 <= i < entries.len() && same_key(#[trigger] entries[i].0, key) && !(entries[i].1 is Nil)
}

/// `has(map, key)`: whether `key` has a value other than `nil`. Numeric keys are normalized.
pub open spec fn has_spec(h: HeapV, args: Seq<ValueV>) -> (NativeModel, HeapV) {
    match precheck(h, args, 2, "has"@) {
        Err(m) => (NativeModel::Fails(m), h),
        Ok(id) => match key_of(args[1]) {
            Err(detail) => (NativeModel::Fails(qualified(module(), "has"@) + " key "@ + detail.skip(8)), h),
            Ok(key) => if !h.has_map(id) {
                (NativeModel::Fails(unborrowable("has"@)), h)
            } else {
                (NativeModel::Returns(ValueV::Bool(has_entry(h.maps[id as int], key))), h)
            },
        },
    }
}

/// The keys of entries, as values.
pub open spec fn keys_of(entries: Seq<(MapKeyV, ValueV)>) -> Seq<ValueV> {
    entries.map_values(|e: (MapKeyV, ValueV)| key_value(e.0))
}

/// The values of entries.
pub open spec fn values_of(entries: Seq<(MapKeyV, ValueV)>) -> Seq<ValueV> {
    entries.map_values(|e: (MapKeyV, ValueV)| e.1)
}

/// `keys(map)`: a new list of the keys in insertion order.
pub open spec fn keys_spec(h: HeapV, args: Seq<ValueV>) -> (NativeModel, HeapV) {
    match precheck(h, args, 1, "keys"@) {
        Err(m) => (NativeModel::Fails(m), h),
        Ok(id) => if !h.has_map(id) {
            (NativeModel::Fails(unborrowable("keys"@)), h)
        } else {
            (
                NativeModel::Returns(ValueV::List(h.lists.len() as usize)),
                HeapV { lists: h.lists.push(keys_of(h.maps[id as int])), maps: h.maps },
            )
        },
    }
}

/// `values(map)`: a new list of the values in insertion order.
pub open spec fn values_spec(h: HeapV, args: Seq<ValueV>) -> (NativeModel, HeapV) {
    match precheck(h, args, 1, "values"@) {
        Err(m) => (NativeModel::Fails(m), h),
        Ok(id) => if !h.has_map(id) {
            (NativeModel::Fails(unborrowable("values"@)), h)
        } else {
            (
                NativeModel::Returns(ValueV::List(h.lists.len() as usize)),
                HeapV { lists: h.lists.push(values_of(h.maps[id as int])), maps: h.maps },
            )
        },
    }
}

/// The lists created by `entries`: one `[key, value]` list per entry, then the list of those
/// lists, numbered from `base`.
pub open spec fn pair_lists(entries: Seq<(MapKeyV, ValueV)>, base: nat) -> Seq<Seq<ValueV>> {
    Seq::new(entries.len(), |i: int| seq![key_value(entries[i].0), entries[i].1]).push(
        Seq::new(entries.len(), |i: int| ValueV::List((base + i) as usize)),
    )
}

/// `entries(map)`: a new list of new `[key, value]` lists in insertion order.
pub open spec fn entries_spec(h: HeapV, args: Seq<ValueV>) -> (NativeModel, HeapV) {
    match precheck(h, args, 1, "entries"@) {
        Err(m) => (NativeModel::Fails(m), h),
        Ok(id) => if !h.has_map(id) {
            (NativeModel::Fails(unborrowable("entries"@)), h)
        } else {
            let entries = h.maps[id as int];
            (
                NativeModel::Returns(ValueV::List((h.lists.len() + entries.len()) as usize)),
                HeapV { lists: h.lists + pair_lists(entries, h.lists.len()), maps: h.maps },
            )
        },
    }
}

/// The maps created by `iter`: one `{key=..., value=...}` map per entry.
pub open spec fn pair_maps(entries: Seq<(MapKeyV, ValueV)>) -> Seq<Seq<(MapKeyV, ValueV)>> {
    Seq::new(
        entries.len(),
        |i: int|
            seq![
                (MapKeyV::String("key"@), key_value(entries[i].0)),
                (MapKeyV::String("value"@), entries[i].1),
            ],
    )
}

/// `iter(map)`: a new list of new `{key=..., value=...}` maps in insertion order.
pub open spec fn iter_spec(h: HeapV, args: Seq<ValueV>) -> (NativeModel, HeapV) {
    match precheck(h, args, 1, "iter"@) {
        Err(m) => (NativeModel::Fails(m), h),
        Ok(id) => if !h.has_map(id) {
            (NativeModel::Fails(unborrowable("iter"@)), h)
        } else {
            let entries = h.maps[id as int];
            (
                NativeModel::Returns(ValueV::List(h.lists.len() as usize)),
                HeapV {
                    lists: h.lists.push(
                        Seq::new(entries.len(), |i: int| ValueV::Table((h.maps.len() + i) as usize)),
                    ),
                    maps: h.maps + pair_maps(entries),
                },
            )
        },
    }
}

/// `clear(map)`: removes every entry.
pub open spec fn clear_spec(h: HeapV, args: Seq<ValueV>) -> (NativeModel, HeapV) {
    match precheck(h, args, 1, "clear"@) {
        Err(m) => (NativeModel::Fails(m), h),
        Ok(id) => if !h.has_map(id) {
            (NativeModel::Fails(unborrowable("clear"@)), h)
        } else {
            (
                NativeModel::Returns(ValueV::Nil),
                HeapV { lists: h.lists, maps: h.maps.update(id as int, Seq::empty()) },
            )
        },
    }
}

fn expect_map(heap: &Heap, args: &[Value], expected: usize, name: &str, span: Span) -> (r:
    RuntimeResult<MapRef>)
    requires
        expected >= 1,
    ensures
        match precheck(heap@, values_view(args@), expected as nat, name@) {
            Err(m) => r is Err && r->Err_0.span == span && r->Err_0.message@ == m,
            Ok(id) => r is Ok && r->Ok_0.id == id,
        },
{
    expect_arity(args, expected, "std/map", name, false, span)?;
    match &args[0] {
        Value::Table(map) => Ok(*map),
        value => Err(category_error("std/map", name, " requires a map, got ", value, span)),
    }
}

fn unborrowable_error(name: &str, span: Span) -> (e: RuntimeError)
    ensures
        e.span == span,
        e.message@ == unborrowable(name@),
{
    borrow_error("std/map", name, "map", span)
}

/// `std/map.length`.
pub fn map_length(heap: &mut Heap, args: &[Value], span: Span) -> (r: NativeResult)
    ensures
        (native_model(r), final(heap)@) == length_spec(old(heap)@, values_view(args@)),
        located(r, span),
{
    let map = expect_map(heap, args, 1, "length", span)?;
    if !heap.has_map(map) {
        return Err(unborrowable_error("length", span));
    }
    let length = heap.map_entries(map).len();
    if length as u64 > i64::MAX as u64 {
        return Err(RuntimeError::new(span, "map length exceeds i64".to_owned()));
    }
    Ok(Ok(Value::Int(length as i64)))
}

/// A copy of map entries, in the same order.
pub fn copy_entries(entries: &Vec<(MapKey, Value)>) -> (out: Vec<(MapKey, Value)>)
    ensures
        entries_view(out@) == entries_view(entries@),
{
    let mut out: Vec<(MapKey, Value)> = Vec::new();
    let mut i: usize = 0;
    while i < entries.len()
        invariant
            i <= entries@.len(),
            out@.len() == i,
            forall|k: int| 0 <= k < i ==> #[trigger] out@[k].0@ == entries@[k].0@ && out@[k].1@ == entries@[k].1@,
        decreases entries@.len() - i,
    {
        let entry = &entries[i];
        out.push((entry.0.copy(), entry.1.copy()));
        i = i + 1;
    }
    assert(entries_view(out@) =~= entries_view(entries@));
    out
}

/// `std/map.copy`.
pub fn map_copy(heap: &mut Heap, args: &[Value], span: Span) -> (r: NativeResult)
    ensures
        (native_model(r), final(heap)@) == copy_spec(old(heap)@, values_view(args@)),
        located(r, span),
{
    let map = expect_map(heap, args, 1, "copy", span)?;
    if !heap.has_map(map) {
        return Err(unborrowable_error("copy", span));
    }
    let copied = copy_entries(heap.map_entries(map));
    Ok(Ok(heap.map(copied)))
}

fn key_error(name: &str, detail: &String, span: Span) -> (e: RuntimeError)
    ensures
        e.span == span,
        e.message@ == qualified(module(), name@) + " key "@ + detail@,
{
    let mut message = qualified_text("std/map", name);
    push_str(&mut message, " key ");
    push_str(&mut message, detail.as_str());
    RuntimeError::new(span, message)
}

fn strip_key_prefix(message: &String) -> (detail: String)
    requires
        message@.len() >= 8,
    ensures
        detail@ == message@.skip(8),
{
    let chars = crate::text::chars_of(message.as_str());
    let mut detail = String::new();
    let mut i: usize = 8;
    while i < chars.len()
        invariant
            8 <= i <= chars@.len(),
            chars@ == message@,
            detail@ == chars@.subrange(8, i as int),
        decreases chars@.len() - i,
    {
        crate::text::push_char(&mut detail, chars[i]);
        i = i + 1;
        assert(detail@ =~= chars@.subrange(8, i as int));
    }
    assert(chars@.subrange(8, i as int) =~= message@.skip(8));
    detail
}

/// `std/map.has`.
#[verifier::loop_isolation(false)]
pub fn map_has(heap: &mut Heap, args: &[Value], span: Span) -> (r: NativeResult)
    ensures
        (native_model(r), final(heap)@) == has_spec(old(heap)@, values_view(args@)),
        located(r, span),
{
    let map = expect_map(heap, args, 2, "has", span)?;
    let key = match MapKey::from_value(&args[1], span) {
        Ok(key) => key,
        Err(error) => {
            proof {
                reveal_strlit("map key ");
                assert(error.message@.len() >= 8);
            }
            let detail = strip_key_prefix(&error.message);
            return Err(key_error("has", &detail, span));
        },
    };
    if !heap.has_map(map) {
        return Err(unborrowable_error("has", span));
    }
    let entries = heap.map_entries(map);
    let ghost view = entries_view(entries@);
    let mut i: usize = 0;
    while i < entries.len()
        invariant
            i <= entries@.len(),
            view == entries_view(entries@),
            forall|j: int| 0 <= j < i ==> !(same_key(#[trigger] view[j].0, key@) && !(view[j].1 is Nil)),
        decreases entries@.len() - i,
    {
        let entry = &entries[i];
        if entry.0.matches(&key) && !entry.1.is_nil() {
            assert(view[i as int].0 == entry.0@);
            return Ok(Ok(Value::Bool(true)));
        }
        i = i + 1;
    }
    Ok(Ok(Value::Bool(false)))
}

/// `std/map.keys`.
pub fn map_keys(heap: &mut Heap, args: &[Value], span: Span) -> (r: NativeResult)
    ensures
        (native_model(r), final(heap)@) == keys_spec(old(heap)@, values_view(args@)),
        located(r, span),
{
    let map = expect_map(heap, args, 1, "keys", span)?;
    if !heap.has_map(map) {
        return Err(unborrowable_error("keys", span));
    }
    let entries = heap.map_entries(map);
    let mut keys: Vec<Value> = Vec::new();
    let mut i: usize = 0;
    while i < entries.len()
        invariant
            i <= entries@.len(),
            keys@.len() == i,
            forall|k: int| 0 <= k < i ==> #[trigger] keys@[k]@ == key_value(entries@[k].0@),
        decreases entries@.len() - i,
    {
        keys.push(entries[i].0.to_value());
        i = i + 1;
    }
    assert(values_view(keys@) =~= keys_of(entries_view(entries@)));
    Ok(Ok(heap.list(keys)))
}

/// `std/map.values`.
pub fn map_values(heap: &mut Heap, args: &[Value], span: Span) -> (r: NativeResult)
    ensures
        (native_model(r), final(heap)@) == values_spec(old(heap)@, values_view(args@)),
        located(r, span),
{
    let map = expect_map(heap, args, 1, "values", span)?;
    if !heap.has_map(map) {
        return Err(unborrowable_error("values", span));
    }
    let entries = heap.map_entries(map);
    let mut values: Vec<Value> = Vec::new();
    let mut i: usize = 0;
    while i < entries.len()
        invariant
            i <= entries@.len(),
            values@.len() == i,
            forall|k: int| 0 <= k < i ==> #[trigger] values@[k]@ == entries@[k].1@,
        decreases entries@.len() - i,
    {
        values.push(entries[i].1.copy());
        i = i + 1;
    }
    assert(values_view(values@) =~= values_of(entries_view(entries@)));
    Ok(Ok(heap.list(values)))
}

/// `std/map.entries`.
pub fn map_entries(heap: &mut Heap, args: &[Value], span: Span) -> (r: NativeResult)
    ensures
        (native_model(r), final(heap)@) == entries_spec(old(heap)@, values_view(args@)),
        located(r, span),
{
    let map = expect_map(heap, args, 1, "entries", span)?;
    if !heap.has_map(map) {
        return Err(unborrowable_error("entries", span));
    }
    let pairs_source = copy_entries(heap.map_entries(map));
    let ghost entries = entries_view(pairs_source@);
    let ghost base = heap@.lists.len();
    let ghost h0 = heap@;
    let mut pairs: Vec<Value> = Vec::new();
    let mut i: usize = 0;
    while i < pairs_source.len()
        invariant
            i <= pairs_source@.len(),
            entries == entries_view(pairs_source@),
            entries == h0.maps[map.id as int],
            base == h0.lists.len(),
            heap@.maps == h0.maps,
            heap@.lists.len() == base + i,
            heap@.lists.subrange(0, base as int) == h0.lists,
            forall|k: int| 0 <= k < i ==> #[trigger] heap@.lists[base + k] == seq![key_value(entries[k].0), entries[k].1],
            pairs@.len() == i,
            forall|k: int| 0 <= k < i ==> #[trigger] pairs@[k]@ == ValueV::List((base + k) as usize),
        decreases pairs_source@.len() - i,
    {
        let entry = &pairs_source[i];
        let mut pair: Vec<Value> = Vec::new();
        pair.push(entry.0.to_value());
        pair.push(entry.1.copy());
        let ghost before = heap@;
        let value = heap.list(pair);
        proof {
            assert(values_view(pair@) =~= seq![key_value(entries[i as int].0), entries[i as int].1]);
            assert(heap@.lists.subrange(0, base as int) =~= before.lists.subrange(0, base as int));
        }
        pairs.push(value);
        i = i + 1;
    }
    let ghost inner = heap@;
    let outer = heap.list(pairs);
    proof {
        let expected = h0.lists + pair_lists(entries, base);
        assert(values_view(pairs@) =~= Seq::new(entries.len(), |k: int| ValueV::List((base + k) as usize)));
        assert(heap@.lists.len() == expected.len());
        assert forall|j: int| 0 <= j < expected.len() implies #[trigger] heap@.lists[j] == expected[j] by {
            if j < base {
                assert(inner.lists.subrange(0, base as int)[j] == h0.lists[j]);
            } else if j < base + entries.len() {
                assert(inner.lists[base + (j - base)] == seq![key_value(entries[j - base].0), entries[j - base].1]);
            }
        }
        assert(heap@.lists =~= expected);
    }
    Ok(Ok(outer))
}

/// `std/map.iter`.
pub fn map_iter(heap: &mut Heap, args: &[Value], span: Span) -> (r: NativeResult)
    ensures
        (native_model(r), final(heap)@) == iter_spec(old(heap)@, values_view(args@)),
        located(r, span),
{
    let map = expect_map(heap, args, 1, "iter", span)?;
    if !heap.has_map(map) {
        return Err(unborrowable_error("iter", span));
    }
    let source = copy_entries(heap.map_entries(map));
    let ghost entries = entries_view(source@);
    let ghost base = heap@.maps.len();
    let ghost h0 = heap@;
    let mut items: Vec<Value> = Vec::new();
    let mut i: usize = 0;
    while i < source.len()
        invariant
            i <= source@.len(),
            entries == entries_view(source@),
            entries == h0.maps[map.id as int],
            base == h0.maps.len(),
            heap@.lists == h0.lists,
            heap@.maps.len() == base + i,
            heap@.maps.subrange(0, base as int) == h0.maps,
            forall|k: int| 0 <= k < i ==> #[trigger] heap@.maps[base + k] == pair_maps(entries)[k],
            items@.len() == i,
            forall|k: int| 0 <= k < i ==> #[trigger] items@[k]@ == ValueV::Table((base + k) as usize),
        decreases source@.len() - i,
    {
        let entry = &source[i];
        let mut fields: Vec<(MapKey, Value)> = Vec::new();
        fields.push((MapKey::String("key".to_owned()), entry.0.to_value()));
        fields.push((MapKey::String("value".to_owned()), entry.1.copy()));
        let ghost before = heap@;
        let value = heap.map(fields);
        proof {
            assert(entries_view(fields@) =~= pair_maps(entries)[i as int]);
            assert(heap@.maps.subrange(0, base as int) =~= before.maps.subrange(0, base as int));
        }
        items.push(value);
        i = i + 1;
    }
    let ghost inner = heap@;
    let outer = heap.list(items);
    proof {
        let expected = h0.maps + pair_maps(entries);
        assert(values_view(items@) =~= Seq::new(entries.len(), |k: int| ValueV::Table((base + k) as usize)));
        assert forall|j: int| 0 <= j < expected.len() implies #[trigger] heap@.maps[j] == expected[j] by {
            if j < base {
                assert(inner.maps.subrange(0, base as int)[j] == h0.maps[j]);
            } else {
                assert(inner.maps[base + (j - base)] == pair_maps(entries)[j - base]);
            }
        }
        assert(heap@.maps =~= expected);
    }
    Ok(Ok(outer))
}

/// `std/map.clear`.
pub fn map_clear(heap: &mut Heap, args: &[Value], span: Span) -> (r: NativeResult)
    ensures
        (native_model(r), final(heap)@) == clear_spec(old(heap)@, values_view(args@)),
        located(r, span),
{
    let map = expect_map(heap, args, 1, "clear", span)?;
    if !heap.has_map(map) {
        return Err(unborrowable_error("clear", span));
    }
    let _ = heap.take_map(map);
    Ok(Ok(Value::Nil))
}

} // verus!
