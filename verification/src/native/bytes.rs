//! `std/bytes`: immutable byte strings.
use vstd::prelude::*;
use crate::error::{NativeResult, RuntimeError, RuntimeResult};
use crate::heap::{Heap, HeapV};
use crate::span::Span;
use crate::text::{int_decimal, nat_decimal, push_i64_decimal, push_str, push_u64_decimal};
use crate::value::{kind_name_of, values_view, Bytes, Value, ValueV};
use crate::native::support::{argument_error, arity_check, borrow_error, category_message, expect_arity, expect_index, index_outcome, plain_model, qualified};

verus! {

/// The module name used in diagnostics.
pub open spec fn module() -> Seq<char> {
    "std/bytes"@
}

/// Diagnostic for an argument that is not bytes.
pub open spec fn not_bytes(name: Seq<char>, argument: Seq<char>, v: ValueV) -> Seq<char> {
    category_message(module(), name, " "@ + argument + " must be bytes, got "@, v)
}

/// `length(data)`: the number of bytes.
pub open spec fn length_spec(args: Seq<ValueV>) -> Result<ValueV, Seq<char>> {
    match arity_check(args, 1, module(), "length"@, false) {
        Some(m) => Err(m),
        None => match args[0] {
            ValueV::Bytes(b) => if b.len() > i64::MAX {
                Err("std/bytes.length result exceeds i64"@)
            } else {
                Ok(ValueV::Int(b.len() as i64))
            },
            v => Err(not_bytes("length"@, "data"@, v)),
        },
    }
}

/// `get(data, index)`: the byte at `index` as an integer, or `nil` past the end.
pub open spec fn get_spec(args: Seq<ValueV>) -> Result<ValueV, Seq<char>> {
    match arity_check(args, 2, module(), "get"@, false) {
        Some(m) => Err(m),
        None => match args[0] {
            ValueV::Bytes(b) => match index_outcome(module(), "get"@, "index"@, args[1]) {
                Err(m) => Err(m),
                Ok((_, i)) => Ok(
                    if i < b.len() {
                        ValueV::Int(b[i as int] as i64)
                    } else {
                        ValueV::Nil
                    },
                ),
            },
            v => Err(not_bytes("get"@, "data"@, v)),
        },
    }
}

/// `min(a, b)` on naturals.
pub open spec fn min(a: int, b: int) -> int {
    if a <= b { a } else { b }
}

/// `slice(data, start, stop)`: the bytes in `[start, stop)`, both clamped to the length, and
/// empty when `stop <= start`.
pub open spec fn slice_spec(args: Seq<ValueV>) -> Result<ValueV, Seq<char>> {
    match arity_check(args, 3, module(), "slice"@, false) {
        Some(m) => Err(m),
        None => match args[0] {
            ValueV::Bytes(b) => match index_outcome(module(), "slice"@, "start"@, args[1]) {
                Err(m) => Err(m),
                Ok((_, start)) => match index_outcome(module(), "slice"@, "stop"@, args[2]) {
                    Err(m) => Err(m),
                    Ok((_, stop)) => {
                        let s = min(start as int, b.len() as int);
                        let e = min(stop as int, b.len() as int);
                        Ok(ValueV::Bytes(if e <= s { Seq::empty() } else { b.subrange(s, e) }))
                    },
                },
            },
            v => Err(not_bytes("slice"@, "data"@, v)),
        },
    }
}

/// `concat(left, right)`: the bytes of `left` followed by those of `right`.
pub open spec fn concat_spec(args: Seq<ValueV>) -> Result<ValueV, Seq<char>> {
    match arity_check(args, 2, module(), "concat"@, false) {
        Some(m) => Err(m),
        None => match (args[0], args[1]) {
            (ValueV::Bytes(l), ValueV::Bytes(r)) => if l.len() + r.len() > usize::MAX {
                Err("std/bytes.concat result is too large"@)
            } else {
                Ok(ValueV::Bytes(l + r))
            },
            (ValueV::Bytes(_), v) => Err(not_bytes("concat"@, "right"@, v)),
            (v, _) => Err(not_bytes("concat"@, "left"@, v)),
        },
    }
}

/// Diagnostic for the element at `index` of the list given to `from_list`.
pub open spec fn element_message(index: int, v: ValueV) -> Seq<char> {
    match v {
        ValueV::Int(n) => "std/bytes.from_list values["@ + nat_decimal(index as nat)
            + "] must be between 0 and 255, got "@ + int_decimal(n as int),
        _ => "std/bytes.from_list values["@ + nat_decimal(index as nat)
            + "] must be an integer, got "@ + kind_name_of(v),
    }
}

/// Whether a value is an integer between 0 and 255.
pub open spec fn is_byte(v: ValueV) -> bool {
    v is Int && 0 <= v->Int_0 <= 255
}

/// The bytes of the elements from `start` on, or the diagnostic for the first that is not a
/// byte.
pub open spec fn bytes_from(items: Seq<ValueV>, start: int) -> Result<Seq<u8>, Seq<char>>
    decreases items.len() - start,
{
    if start >= items.len() || start < 0 {
        Ok(Seq::empty())
    } else if !is_byte(items[start]) {
        Err(element_message(start, items[start]))
    } else {
        match bytes_from(items, start + 1) {
            Ok(rest) => Ok(seq![items[start]->Int_0 as u8] + rest),
            Err(m) => Err(m),
        }
    }
}

/// `from_list(values)`: the bytes given by a list of integers between 0 and 255.
pub open spec fn from_list_spec(h: HeapV, args: Seq<ValueV>) -> Result<ValueV, Seq<char>> {
    match arity_check(args, 1, module(), "from_list"@, false) {
        Some(m) => Err(m),
        None => match args[0] {
            ValueV::List(id) => if !h.has_list(id) {
                Err(qualified(module(), "from_list"@) + " could not borrow "@ + "list"@)
            } else {
                match bytes_from(h.lists[id as int], 0) {
                    Ok(b) => Ok(ValueV::Bytes(b)),
                    Err(m) => Err(m),
                }
            },
            v => Err(
                category_message(module(), "from_list"@, " "@ + "values"@ + " must be a list, got "@, v),
            ),
        },
    }
}

/// The integers standing for a byte string.
pub open spec fn byte_values(b: Seq<u8>) -> Seq<ValueV> {
    b.map_values(|x: u8| ValueV::Int(x as i64))
}

fn expect_bytes<'a>(value: &'a Value, name: &str, argument: &str, span: Span) -> (r: RuntimeResult<
    &'a Bytes,
>)
    ensures
        value@ is Bytes ==> r is Ok && r->Ok_0@ == value@->Bytes_0,
        !(value@ is Bytes) ==> r is Err && r->Err_0.span == span && r->Err_0.message@
            == not_bytes(name@, argument@, value@),
{
    match value {
        Value::Bytes(bytes) => Ok(bytes),
        _ => Err(argument_error("std/bytes", name, argument, " must be bytes, got ", value, span)),
    }
}

/// `std/bytes.length`.
pub fn bytes_length(heap: &mut Heap, args: &[Value], span: Span) -> (r: NativeResult)
    ensures
        plain_model(r) == length_spec(values_view(args@)),
        !(r matches Ok(Err(_))),
        r matches Err(e) ==> e.span == span,
        final(heap)@ == old(heap)@,
{
    expect_arity(args, 1, "std/bytes", "length", false, span)?;
    let bytes = expect_bytes(&args[0], "length", "data", span)?;
    let length = bytes.len();
    if length as u64 > i64::MAX as u64 {
        return Err(RuntimeError::new(span, "std/bytes.length result exceeds i64".to_owned()));
    }
    Ok(Ok(Value::Int(length as i64)))
}

/// `std/bytes.get`.
pub fn bytes_get(heap: &mut Heap, args: &[Value], span: Span) -> (r: NativeResult)
    ensures
        plain_model(r) == get_spec(values_view(args@)),
        !(r matches Ok(Err(_))),
        r matches Err(e) ==> e.span == span,
        final(heap)@ == old(heap)@,
{
    expect_arity(args, 2, "std/bytes", "get", false, span)?;
    let bytes = expect_bytes(&args[0], "get", "data", span)?;
    let (_, index) = expect_index(&args[1], "std/bytes", "get", "index", span)?;
    match bytes.get(index) {
        Some(b) => Ok(Ok(Value::Int(b as i64))),
        None => Ok(Ok(Value::Nil)),
    }
}

/// `std/bytes.slice`.
pub fn bytes_slice(heap: &mut Heap, args: &[Value], span: Span) -> (r: NativeResult)
    ensures
        plain_model(r) == slice_spec(values_view(args@)),
        !(r matches Ok(Err(_))),
        r matches Err(e) ==> e.span == span,
        final(heap)@ == old(heap)@,
{
    expect_arity(args, 3, "std/bytes", "slice", false, span)?;
    let bytes = expect_bytes(&args[0], "slice", "data", span)?;
    let (_, start) = expect_index(&args[1], "std/bytes", "slice", "start", span)?;
    let (_, stop) = expect_index(&args[2], "std/bytes", "slice", "stop", span)?;
    let data = bytes.as_slice();
    let length = data.len();
    let start = if start < length { start } else { length };
    let stop = if stop < length { stop } else { length };
    let mut out: Vec<u8> = Vec::new();
    let mut i = start;
    while i < stop
        invariant
            start <= i,
            stop <= data@.len(),
            i <= stop || stop <= start,
            stop <= start ==> i == start,
            out@ == data@.subrange(start as int, i as int),
        decreases stop - i,
    {
        out.push(data[i]);
        i = i + 1;
        assert(out@ =~= data@.subrange(start as int, i as int));
    }
    proof {
        if stop <= start {
            assert(out@ =~= Seq::<u8>::empty());
        }
    }
    Ok(Ok(Value::Bytes(Bytes::new(out))))
}

/// `std/bytes.concat`.
pub fn bytes_concat(heap: &mut Heap, args: &[Value], span: Span) -> (r: NativeResult)
    ensures
        plain_model(r) == concat_spec(values_view(args@)),
        !(r matches Ok(Err(_))),
        r matches Err(e) ==> e.span == span,
        final(heap)@ == old(heap)@,
{
    expect_arity(args, 2, "std/bytes", "concat", false, span)?;
    let left = expect_bytes(&args[0], "concat", "left", span)?;
    let right = expect_bytes(&args[1], "concat", "right", span)?;
    let l = left.as_slice();
    let r = right.as_slice();
    if l.len() > usize::MAX - r.len() {
        return Err(RuntimeError::new(span, "std/bytes.concat result is too large".to_owned()));
    }
    let mut out: Vec<u8> = Vec::new();
    let mut i: usize = 0;
    while i < l.len()
        invariant
            i <= l@.len(),
            out@ == l@.take(i as int),
        decreases l@.len() - i,
    {
        out.push(l[i]);
        i = i + 1;
        assert(out@ =~= l@.take(i as int));
    }
    let mut j: usize = 0;
    while j < r.len()
        invariant
            j <= r@.len(),
            out@ == l@ + r@.take(j as int),
        decreases r@.len() - j,
    {
        out.push(r[j]);
        j = j + 1;
        assert(out@ =~= l@ + r@.take(j as int));
    }
    assert(out@ =~= l@ + r@);
    Ok(Ok(Value::Bytes(Bytes::new(out))))
}

fn element_error(index: usize, value: &Value, span: Span) -> (e: RuntimeError)
    ensures
        e.span == span,
        e.message@ == element_message(index as int, value@),
{
    let mut message = String::new();
    push_str(&mut message, "std/bytes.from_list values[");
    push_u64_decimal(&mut message, index as u64);
    match value {
        Value::Int(n) => {
            push_str(&mut message, "] must be between 0 and 255, got ");
            push_i64_decimal(&mut message, *n);
        },
        _ => {
            push_str(&mut message, "] must be an integer, got ");
            push_str(&mut message, value.kind_name());
        },
    }
    proof {
        assert(message@ =~= element_message(index as int, value@));
    }
    RuntimeError::new(span, message)
}

/// `std/bytes.from_list`.
#[verifier::loop_isolation(false)]
pub fn bytes_from_list(heap: &mut Heap, args: &[Value], span: Span) -> (r: NativeResult)
    ensures
        plain_model(r) == from_list_spec(old(heap)@, values_view(args@)),
        !(r matches Ok(Err(_))),
        r matches Err(e) ==> e.span == span,
        final(heap)@ == old(heap)@,
{
    expect_arity(args, 1, "std/bytes", "from_list", false, span)?;
    let list = match &args[0] {
        Value::List(list) => *list,
        value => {
            return Err(argument_error("std/bytes", "from_list", "values", " must be a list, got ", value, span));
        },
    };
    if !heap.has_list(list) {
        return Err(borrow_error("std/bytes", "from_list", "list", span));
    }
    let values = heap.list_values(list);
    let ghost items = values_view(values@);
    let mut out: Vec<u8> = Vec::new();
    let mut i: usize = 0;
    while i < values.len()
        invariant
            i <= values@.len(),
            items == values_view(values@),
            bytes_from(items, 0) == match bytes_from(items, i as int) {
                Ok(rest) => Ok(out@ + rest),
                Err(m) => Err(m),
            },
        decreases values@.len() - i,
    {
        let value = &values[i];
        assert(items[i as int] == values@[i as int]@);
        match value {
            Value::Int(n) => {
                if *n < 0 || *n > 255 {
                    return Err(element_error(i, value, span));
                }
                let ghost before = out@;
                out.push(*n as u8);
                proof {
                    assert(is_byte(items[i as int]));
                    match bytes_from(items, i + 1) {
                        Ok(rest) => {
                            assert(before + (seq![*n as u8] + rest) =~= out@ + rest);
                        },
                        Err(m) => {},
                    }
                }
            },
            _ => {
                return Err(element_error(i, value, span));
            },
        }
        i = i + 1;
    }
    proof {
        assert(out@ + Seq::<u8>::empty() =~= out@);
    }
    Ok(Ok(Value::Bytes(Bytes::new(out))))
}

/// `std/bytes.to_list`: a new list of the bytes as integers.
pub fn bytes_to_list(heap: &mut Heap, args: &[Value], span: Span) -> (r: NativeResult)
    ensures
        args@.len() != 1 ==> r is Err && r->Err_0.message@ == crate::native::support::arity_message(
            module(),
            "to_list"@,
            1,
            args@.len(),
            false,
        ) && final(heap)@ == old(heap)@,
        args@.len() == 1 && !(args@[0]@ is Bytes) ==> r is Err && r->Err_0.message@ == not_bytes(
            "to_list"@,
            "data"@,
            args@[0]@,
        ) && final(heap)@ == old(heap)@,
        args@.len() == 1 && args@[0]@ is Bytes ==> {
            &&& r matches Ok(Ok(v)) && v@ == ValueV::List(old(heap)@.lists.len() as usize)
            &&& final(heap)@.lists == old(heap)@.lists.push(byte_values(args@[0]@->Bytes_0))
            &&& final(heap)@.maps == old(heap)@.maps
        },
        r matches Err(e) ==> e.span == span,
{
    expect_arity(args, 1, "std/bytes", "to_list", false, span)?;
    let bytes = expect_bytes(&args[0], "to_list", "data", span)?;
    let data = bytes.as_slice();
    let mut values: Vec<Value> = Vec::new();
    let mut i: usize = 0;
    while i < data.len()
        invariant
            i <= data@.len(),
            values@.len() == i,
            forall|k: int| 0 <= k < i ==> #[trigger] values@[k]@ == ValueV::Int(data@[k] as i64),
        decreases data@.len() - i,
    {
        values.push(Value::Int(data[i] as i64));
        i = i + 1;
    }
    assert(values_view(values@) =~= byte_values(data@));
    Ok(Ok(heap.list(values)))
}

} // verus!
