//! `std/list`: operations on mutable lists. Mutations are seen through every value that refers
//! to the same list.
use vstd::prelude::*;
use crate::error::{NativeResult, Raised, RuntimeError, RuntimeResult};
use crate::heap::{Heap, HeapV};
use crate::span::Span;
use crate::keys::{primitive_equal, values_equal};
use crate::value::{values_view, ListRef, Value, ValueV};
use crate::native::support::{
    arity_message, borrow_error, bounds_raise, category_error, category_message, expect_arity,
    expect_index, index_outcome, located, native_model, qualified, NativeModel,
};

verus! {

/// The module name used in diagnostics.
pub open spec fn module() -> Seq<char> {
    "std/list"@
}

/// Diagnostic for an argument that is not a list.
pub open spec fn not_list(name: Seq<char>, v: ValueV) -> Seq<char> {
    category_message(module(), name, " requires a list, got "@, v)
}

/// Diagnostic for a list that the heap cannot lend.
pub open spec fn unborrowable(name: Seq<char>) -> Seq<char> {
    qualified(module(), name) + " could not borrow "@ + "list"@
}

/// The outcome shared by all list operations before their own work: the arity, then the list
/// argument, must be right.
pub open spec fn precheck(args: Seq<ValueV>, expected: nat, name: Seq<char>) -> Option<Seq<char>> {
    if args.len() != expected {
        Some(arity_message(module(), name, expected, args.len(), false))
    } else if !(args[0] is List) {
        Some(not_list(name, args[0]))
    } else {
        None
    }
}

/// Heap `h` with list `id` replaced by `items`.
pub open spec fn with_list(h: HeapV, id: usize, items: Seq<ValueV>) -> HeapV {
    HeapV { lists: h.lists.update(id as int, items), maps: h.maps }
}

/// Heap `h` with a new list `items` appended.
pub open spec fn with_new_list(h: HeapV, items: Seq<ValueV>) -> HeapV {
    HeapV { lists: h.lists.push(items), maps: h.maps }
}

/// `length(list)`.
pub open spec fn length_spec(h: HeapV, args: Seq<ValueV>) -> (NativeModel, HeapV) {
    match precheck(args, 1, "length"@) {
        Some(m) => (NativeModel::Fails(m), h),
        None => {
            let id = args[0]->List_0;
            if !h.has_list(id) {
                (NativeModel::Fails(unborrowable("length"@)), h)
            } else if h.lists[id as int].len() > i64::MAX {
                (NativeModel::Fails("list length exceeds i64"@), h)
            } else {
                (NativeModel::Returns(ValueV::Int(h.lists[id as int].len() as i64)), h)
            }
        },
    }
}

/// `copy(list)`: a new list with the same elements.
pub open spec fn copy_spec(h: HeapV, args: Seq<ValueV>) -> (NativeModel, HeapV) {
    match precheck(args, 1, "copy"@) {
        Some(m) => (NativeModel::Fails(m), h),
        None => {
            let id = args[0]->List_0;
            if !h.has_list(id) {
                (NativeModel::Fails(unborrowable("copy"@)), h)
            } else {
                (
                    NativeModel::Returns(ValueV::List(h.lists.len() as usize)),
                    with_new_list(h, h.lists[id as int]),
                )
            }
        },
    }
}

/// `get(list, index)`: the element at `index`, or `nil` past the end.
pub open spec fn get_spec(h: HeapV, args: Seq<ValueV>) -> (NativeModel, HeapV) {
    match precheck(args, 2, "get"@) {
        Some(m) => (NativeModel::Fails(m), h),
        None => match index_outcome(module(), "get"@, ""@, args[1]) {
            Err(m) => (NativeModel::Fails(m), h),
            Ok((_, i)) => {
                let id = args[0]->List_0;
                if !h.has_list(id) {
                    (NativeModel::Fails(unborrowable("get"@)), h)
                } else if i < h.lists[id as int].len() {
                    (NativeModel::Returns(h.lists[id as int][i as int]), h)
                } else {
                    (NativeModel::Returns(ValueV::Nil), h)
                }
            },
        },
    }
}

/// `append(list, value)`: adds `value` at the end.
pub open spec fn append_spec(h: HeapV, args: Seq<ValueV>) -> (NativeModel, HeapV) {
    match precheck(args, 2, "append"@) {
        Some(m) => (NativeModel::Fails(m), h),
        None => {
            let id = args[0]->List_0;
            if !h.has_list(id) {
                (NativeModel::Fails(unborrowable("append"@)), h)
            } else {
                (NativeModel::Returns(ValueV::Nil), with_list(h, id, h.lists[id as int].push(args[1])))
            }
        },
    }
}

/// `extend(list, source)`: adds the elements `source` had at the call, in order.
pub open spec fn extend_spec(h: HeapV, args: Seq<ValueV>) -> (NativeModel, HeapV) {
    match precheck(args, 2, "extend"@) {
        Some(m) => (NativeModel::Fails(m), h),
        None => if !(args[1] is List) {
            (NativeModel::Fails(not_list("extend"@, args[1])), h)
        } else {
            let id = args[0]->List_0;
            let source = args[1]->List_0;
            if !h.has_list(source) || !h.has_list(id) {
                (NativeModel::Fails(unborrowable("extend"@)), h)
            } else {
                (
                    NativeModel::Returns(ValueV::Nil),
                    with_list(h, id, h.lists[id as int] + h.lists[source as int]),
                )
            }
        },
    }
}

/// `set(list, index, value)`: replaces an element; an index past the end raises.
pub open spec fn set_spec(h: HeapV, args: Seq<ValueV>) -> (NativeModel, HeapV) {
    match precheck(args, 3, "set"@) {
        Some(m) => (NativeModel::Fails(m), h),
        None => match index_outcome(module(), "set"@, ""@, args[1]) {
            Err(m) => (NativeModel::Fails(m), h),
            Ok((raw, i)) => {
                let id = args[0]->List_0;
                if !h.has_list(id) {
                    (NativeModel::Fails(unborrowable("set"@)), h)
                } else if i >= h.lists[id as int].len() {
                    bounds_raise(h, raw, h.lists[id as int].len())
                } else {
                    (
                        NativeModel::Returns(ValueV::Nil),
                        with_list(h, id, h.lists[id as int].update(i as int, args[2])),
                    )
                }
            },
        },
    }
}

/// `insert(list, index, value)`: inserts before `index`; an index past the length raises.
pub open spec fn insert_spec(h: HeapV, args: Seq<ValueV>) -> (NativeModel, HeapV) {
    match precheck(args, 3, "insert"@) {
        Some(m) => (NativeModel::Fails(m), h),
        None => match index_outcome(module(), "insert"@, ""@, args[1]) {
            Err(m) => (NativeModel::Fails(m), h),
            Ok((raw, i)) => {
                let id = args[0]->List_0;
                if !h.has_list(id) {
                    (NativeModel::Fails(unborrowable("insert"@)), h)
                } else if i > h.lists[id as int].len() {
                    bounds_raise(h, raw, h.lists[id as int].len())
                } else {
                    (
                        NativeModel::Returns(ValueV::Nil),
                        with_list(h, id, h.lists[id as int].insert(i as int, args[2])),
                    )
                }
            },
        },
    }
}

/// `remove(list, index)`: removes and returns an element; an index past the end raises.
pub open spec fn remove_spec(h: HeapV, args: Seq<ValueV>) -> (NativeModel, HeapV) {
    match precheck(args, 2, "remove"@) {
        Some(m) => (NativeModel::Fails(m), h),
        None => match index_outcome(module(), "remove"@, ""@, args[1]) {
            Err(m) => (NativeModel::Fails(m), h),
            Ok((raw, i)) => {
                let id = args[0]->List_0;
                if !h.has_list(id) {
                    (NativeModel::Fails(unborrowable("remove"@)), h)
                } else if i >= h.lists[id as int].len() {
                    bounds_raise(h, raw, h.lists[id as int].len())
                } else {
                    (
                        NativeModel::Returns(h.lists[id as int][i as int]),
                        with_list(h, id, h.lists[id as int].remove(i as int)),
                    )
                }
            },
        },
    }
}

/// `pop(list)`: removes and returns the last element; an empty list raises.
pub open spec fn pop_spec(h: HeapV, args: Seq<ValueV>) -> (NativeModel, HeapV) {
    match precheck(args, 1, "pop"@) {
        Some(m) => (NativeModel::Fails(m), h),
        None => {
            let id = args[0]->List_0;
            if !h.has_list(id) {
                (NativeModel::Fails(unborrowable("pop"@)), h)
            } else if h.lists[id as int].len() == 0 {
                bounds_raise(h, 0, 0)
            } else {
                (
                    NativeModel::Returns(h.lists[id as int].last()),
                    with_list(h, id, h.lists[id as int].drop_last()),
                )
            }
        },
    }
}

/// `slice(list, start, end)`: a new list of the elements in `[start, end)`, both clamped to the
/// length, and empty when `end <= start`.
pub open spec fn slice_spec(h: HeapV, args: Seq<ValueV>) -> (NativeModel, HeapV) {
    match precheck(args, 3, "slice"@) {
        Some(m) => (NativeModel::Fails(m), h),
        None => match index_outcome(module(), "slice"@, ""@, args[1]) {
            Err(m) => (NativeModel::Fails(m), h),
            Ok((_, start)) => match index_outcome(module(), "slice"@, ""@, args[2]) {
                Err(m) => (NativeModel::Fails(m), h),
                Ok((_, end)) => {
                    let id = args[0]->List_0;
                    if !h.has_list(id) {
                        (NativeModel::Fails(unborrowable("slice"@)), h)
                    } else {
                        let items = h.lists[id as int];
                        let s = if start <= items.len() { start as int } else { items.len() as int };
                        let e = if end <= items.len() { end as int } else { items.len() as int };
                        (
                            NativeModel::Returns(ValueV::List(h.lists.len() as usize)),
                            with_new_list(h, if e <= s { Seq::empty() } else { items.subrange(s, e) }),
                        )
                    }
                },
            },
        },
    }
}

/// Whether some element from `start` on equals `needle`, scanning in order; comparing with an
/// element that has no equality with `needle` is a hard error.
pub open spec fn contains_from(items: Seq<ValueV>, needle: ValueV, start: int) -> Result<bool, Seq<char>>
    decreases items.len() - start,
{
    if start < 0 || start >= items.len() {
        Ok(false)
    } else {
        match primitive_equal(items[start], needle) {
            Err(m) => Err(m),
            Ok(true) => Ok(true),
            Ok(false) => contains_from(items, needle, start + 1),
        }
    }
}

/// `contains(list, value)`: whether an element equals `value` under the language's equality.
pub open spec fn contains_spec(h: HeapV, args: Seq<ValueV>) -> (NativeModel, HeapV) {
    match precheck(args, 2, "contains"@) {
        Some(m) => (NativeModel::Fails(m), h),
        None => {
            let id = args[0]->List_0;
            if !h.has_list(id) {
                (NativeModel::Fails(unborrowable("contains"@)), h)
            } else {
                match contains_from(h.lists[id as int], args[1], 0) {
                    Ok(b) => (NativeModel::Returns(ValueV::Bool(b)), h),
                    Err(m) => (NativeModel::Fails(m), h),
                }
            }
        },
    }
}

/// `reverse(list)`: reverses the elements in place.
pub open spec fn reverse_spec(h: HeapV, args: Seq<ValueV>) -> (NativeModel, HeapV) {
    match precheck(args, 1, "reverse"@) {
        Some(m) => (NativeModel::Fails(m), h),
        None => {
            let id = args[0]->List_0;
            if !h.has_list(id) {
                (NativeModel::Fails(unborrowable("reverse"@)), h)
            } else {
                (NativeModel::Returns(ValueV::Nil), with_list(h, id, h.lists[id as int].reverse()))
            }
        },
    }
}

fn expect_list(args: &[Value], expected: usize, name: &str, span: Span) -> (r: RuntimeResult<
    ListRef,
>)
    requires
        expected >= 1,
    ensures
        precheck(values_view(args@), expected as nat, name@) matches Some(m) ==> r is Err
            && r->Err_0.span == span && r->Err_0.message@ == m,
        precheck(values_view(args@), expected as nat, name@) is None ==> r is Ok && args@[0]@
            == ValueV::List(r->Ok_0.id),
{
    expect_arity(args, expected, "std/list", name, false, span)?;
    match &args[0] {
        Value::List(list) => Ok(*list),
        value => Err(category_error("std/list", name, " requires a list, got ", value, span)),
    }
}

fn unborrowable_error(name: &str, span: Span) -> (e: RuntimeError)
    ensures
        e.span == span,
        e.message@ == unborrowable(name@),
{
    borrow_error("std/list", name, "list", span)
}

/// Copies of the given values.
pub fn copy_values(values: &Vec<Value>, start: usize, end: usize) -> (out: Vec<Value>)
    requires
        start <= end <= values@.len(),
    ensures
        values_view(out@) == values_view(values@).subrange(start as int, end as int),
{
    let mut out: Vec<Value> = Vec::new();
    let mut i = start;
    while i < end
        invariant
            start <= i <= end,
            end <= values@.len(),
            out@.len() == i - start,
            forall|k: int| 0 <= k < out@.len() ==> #[trigger] out@[k]@ == values@[start + k]@,
        decreases end - i,
    {
        out.push(values[i].copy());
        i = i + 1;
    }
    assert(values_view(out@) =~= values_view(values@).subrange(start as int, end as int));
    out
}

fn raise_bounds(heap: &mut Heap, index: i64, length: usize, span: Span) -> (r: NativeResult)
    ensures
        (native_model(r), final(heap)@) == bounds_raise(old(heap)@, index, length as nat),
        located(r, span),
{
    match Raised::index_out_of_bounds(heap, index, length, span) {
        Ok(raised) => Ok(Err(raised)),
        Err(error) => Err(error),
    }
}

/// `std/list.length`.
pub fn list_length(heap: &mut Heap, args: &[Value], span: Span) -> (r: NativeResult)
    ensures
        (native_model(r), final(heap)@) == length_spec(old(heap)@, values_view(args@)),
        located(r, span),
{
    let list = expect_list(args, 1, "length", span)?;
    if !heap.has_list(list) {
        return Err(unborrowable_error("length", span));
    }
    let length = heap.list_values(list).len();
    if length as u64 > i64::MAX as u64 {
        return Err(RuntimeError::new(span, "list length exceeds i64".to_owned()));
    }
    Ok(Ok(Value::Int(length as i64)))
}

/// `std/list.copy`.
pub fn list_copy(heap: &mut Heap, args: &[Value], span: Span) -> (r: NativeResult)
    ensures
        (native_model(r), final(heap)@) == copy_spec(old(heap)@, values_view(args@)),
        located(r, span),
{
    let list = expect_list(args, 1, "copy", span)?;
    if !heap.has_list(list) {
        return Err(unborrowable_error("copy", span));
    }
    let values = heap.list_values(list);
    let copied = copy_values(values, 0, values.len());
    proof {
        assert(values_view(values@).subrange(0, values@.len() as int) =~= values_view(values@));
    }
    Ok(Ok(heap.list(copied)))
}

/// `std/list.get`.
pub fn list_get(heap: &mut Heap, args: &[Value], span: Span) -> (r: NativeResult)
    ensures
        (native_model(r), final(heap)@) == get_spec(old(heap)@, values_view(args@)),
        located(r, span),
{
    let list = expect_list(args, 2, "get", span)?;
    let (_, index) = expect_index(&args[1], "std/list", "get", "", span)?;
    if !heap.has_list(list) {
        return Err(unborrowable_error("get", span));
    }
    let values = heap.list_values(list);
    if index < values.len() {
        Ok(Ok(values[index].copy()))
    } else {
        Ok(Ok(Value::Nil))
    }
}

/// `std/list.append`.
pub fn list_append(heap: &mut Heap, args: &[Value], span: Span) -> (r: NativeResult)
    ensures
        (native_model(r), final(heap)@) == append_spec(old(heap)@, values_view(args@)),
        located(r, span),
{
    let list = expect_list(args, 2, "append", span)?;
    if !heap.has_list(list) {
        return Err(unborrowable_error("append", span));
    }
    let mut values = heap.take_list(list);
    values.push(args[1].copy());
    heap.put_list(list, values);
    proof {
        assert(values_view(values@) =~= old(heap)@.lists[list.id as int].push(args@[1]@));
        assert(heap@ =~= with_list(old(heap)@, list.id, old(heap)@.lists[list.id as int].push(args@[1]@)));
    }
    Ok(Ok(Value::Nil))
}

/// `std/list.extend`.
pub fn list_extend(heap: &mut Heap, args: &[Value], span: Span) -> (r: NativeResult)
    ensures
        (native_model(r), final(heap)@) == extend_spec(old(heap)@, values_view(args@)),
        located(r, span),
{
    let list = expect_list(args, 2, "extend", span)?;
    let source = match &args[1] {
        Value::List(source) => *source,
        value => {
            return Err(category_error("std/list", "extend", " requires a list, got ", value, span));
        },
    };
    if !heap.has_list(source) || !heap.has_list(list) {
        return Err(unborrowable_error("extend", span));
    }
    let source_values = heap.list_values(source);
    let snapshot = copy_values(source_values, 0, source_values.len());
    proof {
        assert(values_view(source_values@).subrange(0, source_values@.len() as int) =~= values_view(source_values@));
    }
    let mut values = heap.take_list(list);
    let ghost start = values@;
    let mut i: usize = 0;
    while i < snapshot.len()
        invariant
            i <= snapshot@.len(),
            values_view(values@) == values_view(start) + values_view(snapshot@).take(i as int),
        decreases snapshot@.len() - i,
    {
        let ghost prev = values@;
        let copied = snapshot[i].copy();
        values.push(copied);
        proof {
            assert(values@ == prev.push(copied));
            assert(values_view(values@) =~= values_view(prev).push(copied@));
            assert(values_view(snapshot@).take(i + 1) =~= values_view(snapshot@).take(i as int).push(snapshot@[i as int]@));
        }
        i = i + 1;
    }
    heap.put_list(list, values);
    proof {
        assert(values_view(snapshot@).take(i as int) =~= values_view(snapshot@));
        assert(heap@ =~= with_list(
            old(heap)@,
            list.id,
            old(heap)@.lists[list.id as int] + old(heap)@.lists[source.id as int],
        ));
    }
    Ok(Ok(Value::Nil))
}

/// `std/list.set`.
pub fn list_set(heap: &mut Heap, args: &[Value], span: Span) -> (r: NativeResult)
    ensures
        (native_model(r), final(heap)@) == set_spec(old(heap)@, values_view(args@)),
        located(r, span),
{
    let list = expect_list(args, 3, "set", span)?;
    let (raw, index) = expect_index(&args[1], "std/list", "set", "", span)?;
    if !heap.has_list(list) {
        return Err(unborrowable_error("set", span));
    }
    let length = heap.list_values(list).len();
    if index >= length {
        return raise_bounds(heap, raw, length, span);
    }
    let mut values = heap.take_list(list);
    assert(values@.len() == values_view(values@).len());
    values.set(index, args[2].copy());
    heap.put_list(list, values);
    proof {
        assert(values_view(values@) =~= old(heap)@.lists[list.id as int].update(index as int, args@[2]@));
        assert(heap@ =~= with_list(
            old(heap)@,
            list.id,
            old(heap)@.lists[list.id as int].update(index as int, args@[2]@),
        ));
    }
    Ok(Ok(Value::Nil))
}

/// `std/list.insert`.
pub fn list_insert(heap: &mut Heap, args: &[Value], span: Span) -> (r: NativeResult)
    ensures
        (native_model(r), final(heap)@) == insert_spec(old(heap)@, values_view(args@)),
        located(r, span),
{
    let list = expect_list(args, 3, "insert", span)?;
    let (raw, index) = expect_index(&args[1], "std/list", "insert", "", span)?;
    if !heap.has_list(list) {
        return Err(unborrowable_error("insert", span));
    }
    let length = heap.list_values(list).len();
    if index > length {
        return raise_bounds(heap, raw, length, span);
    }
    let mut values = heap.take_list(list);
    assert(values@.len() == values_view(values@).len());
    values.insert(index, args[2].copy());
    heap.put_list(list, values);
    proof {
        assert(values_view(values@) =~= old(heap)@.lists[list.id as int].insert(index as int, args@[2]@));
        assert(heap@ =~= with_list(
            old(heap)@,
            list.id,
            old(heap)@.lists[list.id as int].insert(index as int, args@[2]@),
        ));
    }
    Ok(Ok(Value::Nil))
}

/// `std/list.remove`.
pub fn list_remove(heap: &mut Heap, args: &[Value], span: Span) -> (r: NativeResult)
    ensures
        (native_model(r), final(heap)@) == remove_spec(old(heap)@, values_view(args@)),
        located(r, span),
{
    let list = expect_list(args, 2, "remove", span)?;
    let (raw, index) = expect_index(&args[1], "std/list", "remove", "", span)?;
    if !heap.has_list(list) {
        return Err(unborrowable_error("remove", span));
    }
    let length = heap.list_values(list).len();
    if index >= length {
        return raise_bounds(heap, raw, length, span);
    }
    let mut values = heap.take_list(list);
    assert(values@.len() == values_view(values@).len());
    let removed = values.remove(index);
    heap.put_list(list, values);
    proof {
        assert(values_view(values@) =~= old(heap)@.lists[list.id as int].remove(index as int));
        assert(heap@ =~= with_list(
            old(heap)@,
            list.id,
            old(heap)@.lists[list.id as int].remove(index as int),
        ));
    }
    Ok(Ok(removed))
}

/// `std/list.pop`.
pub fn list_pop(heap: &mut Heap, args: &[Value], span: Span) -> (r: NativeResult)
    ensures
        (native_model(r), final(heap)@) == pop_spec(old(heap)@, values_view(args@)),
        located(r, span),
{
    let list = expect_list(args, 1, "pop", span)?;
    if !heap.has_list(list) {
        return Err(unborrowable_error("pop", span));
    }
    let length = heap.list_values(list).len();
    if length == 0 {
        return raise_bounds(heap, 0, 0, span);
    }
    let mut values = heap.take_list(list);
    assert(values@.len() == values_view(values@).len());
    let removed = values.remove(length - 1);
    heap.put_list(list, values);
    proof {
        assert(values_view(values@) =~= old(heap)@.lists[list.id as int].drop_last());
        assert(heap@ =~= with_list(old(heap)@, list.id, old(heap)@.lists[list.id as int].drop_last()));
    }
    Ok(Ok(removed))
}

/// `std/list.slice`.
pub fn list_slice(heap: &mut Heap, args: &[Value], span: Span) -> (r: NativeResult)
    ensures
        (native_model(r), final(heap)@) == slice_spec(old(heap)@, values_view(args@)),
        located(r, span),
{
    let list = expect_list(args, 3, "slice", span)?;
    let (_, start) = expect_index(&args[1], "std/list", "slice", "", span)?;
    let (_, end) = expect_index(&args[2], "std/list", "slice", "", span)?;
    if !heap.has_list(list) {
        return Err(unborrowable_error("slice", span));
    }
    let values = heap.list_values(list);
    let length = values.len();
    let start = if start <= length { start } else { length };
    let end = if end <= length { end } else { length };
    let sliced = if end <= start {
        Vec::new()
    } else {
        copy_values(values, start, end)
    };
    proof {
        if end <= start {
            assert(values_view(sliced@) =~= Seq::<ValueV>::empty());
        }
    }
    Ok(Ok(heap.list(sliced)))
}

/// `std/list.contains`.
#[verifier::loop_isolation(false)]
pub fn list_contains(heap: &mut Heap, args: &[Value], span: Span) -> (r: NativeResult)
    ensures
        (native_model(r), final(heap)@) == contains_spec(old(heap)@, values_view(args@)),
        located(r, span),
{
    let list = expect_list(args, 2, "contains", span)?;
    if !heap.has_list(list) {
        return Err(unborrowable_error("contains", span));
    }
    let values = heap.list_values(list);
    let ghost items = values_view(values@);
    let needle = &args[1];
    let mut i: usize = 0;
    while i < values.len()
        invariant
            i <= values@.len(),
            items == values_view(values@),
            contains_from(items, needle@, 0) == contains_from(items, needle@, i as int),
        decreases values@.len() - i,
    {
        assert(items[i as int] == values@[i as int]@);
        let equal = values_equal(&values[i], needle, span)?;
        if equal {
            return Ok(Ok(Value::Bool(true)));
        }
        i = i + 1;
    }
    Ok(Ok(Value::Bool(false)))
}

/// `std/list.reverse`.
pub fn list_reverse(heap: &mut Heap, args: &[Value], span: Span) -> (r: NativeResult)
    ensures
        (native_model(r), final(heap)@) == reverse_spec(old(heap)@, values_view(args@)),
        located(r, span),
{
    let list = expect_list(args, 1, "reverse", span)?;
    if !heap.has_list(list) {
        return Err(unborrowable_error("reverse", span));
    }
    let mut values = heap.take_list(list);
    let ghost original = values_view(values@);
    let ghost n = values@.len();
    let mut reversed: Vec<Value> = Vec::new();
    while values.len() > 0
        invariant
            values@.len() + reversed@.len() == n,
            n == original.len(),
            forall|k: int| 0 <= k < values@.len() ==> #[trigger] values@[k]@ == original[k],
            forall|k: int| 0 <= k < reversed@.len() ==> #[trigger] reversed@[k]@ == original[n - 1 - k],
        decreases values@.len(),
    {
        let value = values.pop().unwrap();
        reversed.push(value);
    }
    heap.put_list(list, reversed);
    proof {
        assert(values_view(reversed@) =~= original.reverse());
        assert(heap@ =~= with_list(old(heap)@, list.id, original.reverse()));
    }
    Ok(Ok(Value::Nil))
}

/// `copy` makes an independent, shallow list: a new list holding the same elements (a nested
/// list stays the same reference), which a later `set` or `append` on the original leaves as it
/// was, whatever the index and value.
pub proof fn lemma_copy_is_independent(h: HeapV, l: usize, index: ValueV, value: ValueV)
    requires
        h.has_list(l),
        h.lists.len() < usize::MAX,
    ensures
        ({
            let (m, h1) = copy_spec(h, seq![ValueV::List(l)]);
            let c = h.lists.len() as usize;
            &&& m == NativeModel::Returns(ValueV::List(c))
            &&& c != l
            &&& h1.lists[c as int] == h.lists[l as int]
            &&& h1.lists[l as int] == h.lists[l as int]
            &&& set_spec(h1, seq![ValueV::List(l), index, value]).1.lists[c as int] == h.lists[l as int]
            &&& append_spec(h1, seq![ValueV::List(l), value]).1.lists[c as int] == h.lists[l as int]
        }),
{
}

} // verus!
