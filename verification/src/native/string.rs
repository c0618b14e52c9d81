//! `std/string`: operations on immutable strings. Lengths and positions count Unicode scalar
//! values, not bytes.
use vstd::prelude::*;
use crate::error::{NativeResult, RuntimeError};
use crate::heap::{Heap, HeapV};
use crate::span::Span;
use crate::text::{chars_of, string_from_range};
use crate::value::{values_view, Value, ValueV};
use crate::native::support::{argument_error, arity_check, category_message, expect_arity, expect_index, index_outcome, located, native_model, plain_model, NativeModel};

verus! {

/// The module name used in diagnostics.
pub open spec fn module() -> Seq<char> {
    "std/string"@
}

/// Diagnostic for an argument that is not a string.
pub open spec fn not_string(name: Seq<char>, argument: Seq<char>, v: ValueV) -> Seq<char> {
    category_message(module(), name, " "@ + argument + " must be a string, got "@, v)
}

/// Whether `t` occurs in `s` at position `i`.
pub open spec fn occurs_at(s: Seq<char>, t: Seq<char>, i: int) -> bool {
    0 <= i && i + t.len() <= s.len() && s.subrange(i, i + t.len()) =~= t
}

/// Whether `t` occurs anywhere in `s`.
pub open spec fn contains_text(s: Seq<char>, t: Seq<char>) -> bool {
    exists|i: int| occurs_at(s, t, i)
}

/// Whether `s` begins with `t`.
pub open spec fn starts_with_text(s: Seq<char>, t: Seq<char>) -> bool {
    t.len() <= s.len() && s.subrange(0, t.len() as int) =~= t
}

/// Whether `s` ends with `t`.
pub open spec fn ends_with_text(s: Seq<char>, t: Seq<char>) -> bool {
    t.len() <= s.len() && s.subrange(s.len() - t.len(), s.len() as int) =~= t
}

/// The first position at or after `from` where `t` occurs in `s`.
pub open spec fn first_occurrence(s: Seq<char>, t: Seq<char>, from: nat) -> Option<nat>
    decreases s.len() - from,
{
    if occurs_at(s, t, from as int) {
        Some(from)
    } else if from >= s.len() {
        None
    } else {
        first_occurrence(s, t, from + 1)
    }
}

/// What the search from `from` finds: an occurrence, the first one at or after `from`.
pub proof fn lemma_first_occurrence(s: Seq<char>, t: Seq<char>, from: nat)
    ensures
        match first_occurrence(s, t, from) {
            Some(i) => from <= i && occurs_at(s, t, i as int) && forall|j: int|
                from <= j < i ==> !#[trigger] occurs_at(s, t, j),
            None => forall|j: int| from <= j ==> !#[trigger] occurs_at(s, t, j),
        },
    decreases s.len() - from,
{
    if occurs_at(s, t, from as int) {
    } else if from >= s.len() {
        assert forall|j: int| from <= j implies !#[trigger] occurs_at(s, t, j) by {
            if j > from {
                assert(j + t.len() > s.len());
            }
        }
    } else {
        lemma_first_occurrence(s, t, from + 1);
    }
}

/// The fields of `s` from position `start` on, cut at each occurrence of `sep` from left to
/// right; the occurrences themselves are dropped.
pub open spec fn split_from(s: Seq<char>, sep: Seq<char>, start: nat) -> Seq<Seq<char>>
    decreases s.len() - start,
{
    if sep.len() == 0 || start > s.len() {
        seq![s.subrange(start as int, s.len() as int)]
    } else {
        match first_occurrence(s, sep, start) {
            None => seq![s.subrange(start as int, s.len() as int)],
            Some(i) => {
                proof {
                    lemma_first_occurrence(s, sep, start);
                }
                seq![s.subrange(start as int, i as int)] + split_from(s, sep, i + sep.len())
            },
        }
    }
}

/// The list `split` returns: for an empty separator, one string per character; otherwise the
/// fields between the separator's occurrences.
pub open spec fn split_values(s: Seq<char>, sep: Seq<char>) -> Seq<ValueV> {
    if sep.len() == 0 {
        Seq::new(s.len(), |i: int| ValueV::String(seq![s[i]]))
    } else {
        split_from(s, sep, 0).map_values(|field: Seq<char>| ValueV::String(field))
    }
}

/// Whether a character has the Unicode `White_Space` property: tab to carriage return, space,
/// next line, no-break space, ogham space mark, the spaces from en quad to hair space, line
/// and paragraph separators, narrow no-break space, medium mathematical space and ideographic
/// space.
pub open spec fn is_white_space(c: char) -> bool {
    let v = c as u32;
    (0x9 <= v && v <= 0xd) || v == 0x20 || v == 0x85 || v == 0xa0 || v == 0x1680
        || (0x2000 <= v && v <= 0x200a) || v == 0x2028 || v == 0x2029 || v == 0x202f
        || v == 0x205f || v == 0x3000
}

/// `s` without its leading white space.
pub open spec fn trim_start(s: Seq<char>) -> Seq<char>
    decreases s.len(),
{
    if s.len() > 0 && is_white_space(s[0]) {
        trim_start(s.drop_first())
    } else {
        s
    }
}

/// `s` without its trailing white space.
pub open spec fn trim_end(s: Seq<char>) -> Seq<char>
    decreases s.len(),
{
    if s.len() > 0 && is_white_space(s.last()) {
        trim_end(s.drop_last())
    } else {
        s
    }
}

/// The lowercase mapping of the whole string, as Unicode defines it (a mapping may depend on
/// the characters around one, as for a final capital sigma).
pub uninterp spec fn lowercase_of(s: Seq<char>) -> Seq<char>;

/// The uppercase mapping of the whole string, as Unicode defines it.
pub uninterp spec fn uppercase_of(s: Seq<char>) -> Seq<char>;

/// The shape shared by the one-string operations: the arity, then a string argument named
/// `value`, then `op` applied to it.
pub open spec fn unary_spec(
    args: Seq<ValueV>,
    name: Seq<char>,
    op: spec_fn(Seq<char>) -> Result<ValueV, Seq<char>>,
) -> Result<ValueV, Seq<char>> {
    match arity_check(args, 1, module(), name, false) {
        Some(m) => Err(m),
        None => match args[0] {
            ValueV::String(s) => op(s),
            v => Err(not_string(name, "value"@, v)),
        },
    }
}

/// The shape shared by the two-string operations: the arity, then a string named `value` and a
/// string named `second`, then `op` applied to both.
pub open spec fn binary_spec(
    args: Seq<ValueV>,
    name: Seq<char>,
    second: Seq<char>,
    op: spec_fn(Seq<char>, Seq<char>) -> ValueV,
) -> Result<ValueV, Seq<char>> {
    match arity_check(args, 2, module(), name, false) {
        Some(m) => Err(m),
        None => match args[0] {
            ValueV::String(s) => match args[1] {
                ValueV::String(t) => Ok(op(s, t)),
                v => Err(not_string(name, second, v)),
            },
            v => Err(not_string(name, "value"@, v)),
        },
    }
}

/// `length(value)`: the number of characters.
pub open spec fn length_spec(args: Seq<ValueV>) -> Result<ValueV, Seq<char>> {
    unary_spec(
        args,
        "length"@,
        |s: Seq<char>|
            if s.len() > i64::MAX {
                Err("std/string.length result exceeds i64"@)
            } else {
                Ok(ValueV::Int(s.len() as i64))
            },
    )
}

/// `slice(value, start, end)`: the characters in `[start, end)`, both clamped to the length;
/// empty when `end <= start`.
pub open spec fn slice_spec(args: Seq<ValueV>) -> Result<ValueV, Seq<char>> {
    match arity_check(args, 3, module(), "slice"@, false) {
        Some(m) => Err(m),
        None => match args[0] {
            ValueV::String(s) => match index_outcome(module(), "slice"@, "start"@, args[1]) {
                Err(m) => Err(m),
                Ok((_, start)) => match index_outcome(module(), "slice"@, "end"@, args[2]) {
                    Err(m) => Err(m),
                    Ok((_, end)) => if end <= start {
                        Ok(ValueV::String(Seq::empty()))
                    } else {
                        let a = if start <= s.len() { start as int } else { s.len() as int };
                        let b = if end <= s.len() { end as int } else { s.len() as int };
                        Ok(ValueV::String(s.subrange(a, b)))
                    },
                },
            },
            v => Err(not_string("slice"@, "value"@, v)),
        },
    }
}

/// `contains(value, search)`.
pub open spec fn contains_spec(args: Seq<ValueV>) -> Result<ValueV, Seq<char>> {
    binary_spec(
        args,
        "contains"@,
        "search"@,
        |s: Seq<char>, t: Seq<char>| ValueV::Bool(contains_text(s, t)),
    )
}

/// `starts_with(value, prefix)`.
pub open spec fn starts_with_spec(args: Seq<ValueV>) -> Result<ValueV, Seq<char>> {
    binary_spec(
        args,
        "starts_with"@,
        "prefix"@,
        |s: Seq<char>, t: Seq<char>| ValueV::Bool(starts_with_text(s, t)),
    )
}

/// `ends_with(value, suffix)`.
pub open spec fn ends_with_spec(args: Seq<ValueV>) -> Result<ValueV, Seq<char>> {
    binary_spec(
        args,
        "ends_with"@,
        "suffix"@,
        |s: Seq<char>, t: Seq<char>| ValueV::Bool(ends_with_text(s, t)),
    )
}

/// `split(value, separator)`: a new list of strings; the heap gains that list.
pub open spec fn split_spec(h: HeapV, args: Seq<ValueV>) -> (NativeModel, HeapV) {
    match arity_check(args, 2, module(), "split"@, false) {
        Some(m) => (NativeModel::Fails(m), h),
        None => match args[0] {
            ValueV::String(s) => match args[1] {
                ValueV::String(sep) => (
                    NativeModel::Returns(ValueV::List(h.lists.len() as usize)),
                    HeapV { lists: h.lists.push(split_values(s, sep)), maps: h.maps },
                ),
                v => (NativeModel::Fails(not_string("split"@, "separator"@, v)), h),
            },
            v => (NativeModel::Fails(not_string("split"@, "value"@, v)), h),
        },
    }
}

/// `trim(value)`: without leading and trailing white space.
pub open spec fn trim_spec(args: Seq<ValueV>) -> Result<ValueV, Seq<char>> {
    unary_spec(args, "trim"@, |s: Seq<char>| Ok(ValueV::String(trim_end(trim_start(s)))))
}

/// `lower(value)`.
pub open spec fn lower_spec(args: Seq<ValueV>) -> Result<ValueV, Seq<char>> {
    unary_spec(args, "lower"@, |s: Seq<char>| Ok(ValueV::String(lowercase_of(s))))
}

/// `upper(value)`.
pub open spec fn upper_spec(args: Seq<ValueV>) -> Result<ValueV, Seq<char>> {
    unary_spec(args, "upper"@, |s: Seq<char>| Ok(ValueV::String(uppercase_of(s))))
}

/// Whether a character has the Unicode `White_Space` property, as `char::is_whitespace` tests.
fn white_space(c: char) -> (r: bool)
    ensures
        r == is_white_space(c),
{
    let v = c as u32;
    (0x9 <= v && v <= 0xd) || v == 0x20 || v == 0x85 || v == 0xa0 || v == 0x1680
        || (0x2000 <= v && v <= 0x200a) || v == 0x2028 || v == 0x2029 || v == 0x202f
        || v == 0x205f || v == 0x3000
}

/// Calls `str::to_lowercase`.
#[verifier::external_body]
fn to_lowercase(s: &str) -> (r: String)
    ensures
        r@ == lowercase_of(s@),
{
    s.to_lowercase()
}

/// Calls `str::to_uppercase`.
#[verifier::external_body]
fn to_uppercase(s: &str) -> (r: String)
    ensures
        r@ == uppercase_of(s@),
{
    s.to_uppercase()
}

/// Whether `t` occurs in `s` at `i`.
fn occurs(s: &[char], t: &[char], i: usize) -> (r: bool)
    ensures
        r == occurs_at(s@, t@, i as int),
{
    let n = s.len();
    let m = t.len();
    if m > n || i > n - m {
        return false;
    }
    let mut k: usize = 0;
    while k < m
        invariant
            k <= m == t@.len(),
            n == s@.len(),
            i + m <= n,
            forall|j: int| 0 <= j < k ==> s@[i + j] == t@[j],
        decreases m - k,
    {
        if s[i + k] != t[k] {
            assert(s@.subrange(i as int, i + t@.len())[k as int] != t@[k as int]);
            return false;
        }
        k = k + 1;
    }
    assert(s@.subrange(i as int, i + t@.len()) =~= t@);
    true
}

/// The first position at or after `from` where `t` occurs in `s`.
fn find_from(s: &[char], t: &[char], from: usize) -> (r: Option<usize>)
    ensures
        match r {
            Some(i) => first_occurrence(s@, t@, from as nat) == Some(i as nat),
            None => first_occurrence(s@, t@, from as nat) is None,
        },
{
    let mut i: usize = from;
    while i < s.len()
        invariant
            from <= i,
            first_occurrence(s@, t@, from as nat) == first_occurrence(s@, t@, i as nat),
        decreases s@.len() - i,
    {
        if occurs(s, t, i) {
            return Some(i);
        }
        i = i + 1;
    }
    if occurs(s, t, i) {
        Some(i)
    } else {
        None
    }
}

/// `std/string.length`.
pub fn string_length(heap: &mut Heap, args: &[Value], span: Span) -> (r: NativeResult)
    ensures
        plain_model(r) == length_spec(values_view(args@)),
        !(r matches Ok(Err(_))),
        located(r, span),
        final(heap)@ == old(heap)@,
{
    expect_arity(args, 1, "std/string", "length", false, span)?;
    let value = match &args[0] {
        Value::String(s) => s,
        other => {
            return Err(argument_error("std/string", "length", "value", " must be a string, got ", other, span));
        },
    };
    let chars = chars_of(value.as_str());
    if chars.len() as u64 > i64::MAX as u64 {
        return Err(RuntimeError::new(span, "std/string.length result exceeds i64".to_string()));
    }
    Ok(Ok(Value::Int(chars.len() as i64)))
}

/// `std/string.slice`.
pub fn string_slice(heap: &mut Heap, args: &[Value], span: Span) -> (r: NativeResult)
    ensures
        plain_model(r) == slice_spec(values_view(args@)),
        !(r matches Ok(Err(_))),
        located(r, span),
        final(heap)@ == old(heap)@,
{
    expect_arity(args, 3, "std/string", "slice", false, span)?;
    let value = match &args[0] {
        Value::String(s) => s,
        other => {
            return Err(argument_error("std/string", "slice", "value", " must be a string, got ", other, span));
        },
    };
    let (_, start) = expect_index(&args[1], "std/string", "slice", "start", span)?;
    let (_, end) = expect_index(&args[2], "std/string", "slice", "end", span)?;
    if end <= start {
        return Ok(Ok(Value::String(String::new())));
    }
    let chars = chars_of(value.as_str());
    let a = if start <= chars.len() { start } else { chars.len() };
    let b = if end <= chars.len() { end } else { chars.len() };
    Ok(Ok(Value::String(string_from_range(chars.as_slice(), a, b))))
}

/// The two string arguments of a two-string operation.
fn two_strings<'a>(args: &'a [Value], name: &str, second: &str, span: Span) -> (r: Result<
    (&'a String, &'a String),
    RuntimeError,
>)
    requires
        args@.len() == 2,
    ensures
        match (args@[0]@, args@[1]@) {
            (ValueV::String(s), ValueV::String(t)) => r matches Ok((a, b)) && a@ == s && b@ == t,
            (ValueV::String(s), v) => r matches Err(e) && e.span == span && e.message@
                == not_string(name@, second@, v),
            (v, _) => r matches Err(e) && e.span == span && e.message@ == not_string(
                name@,
                "value"@,
                v,
            ),
        },
{
    let value = match &args[0] {
        Value::String(s) => s,
        other => {
            return Err(argument_error("std/string", name, "value", " must be a string, got ", other, span));
        },
    };
    let other = match &args[1] {
        Value::String(s) => s,
        other => {
            return Err(argument_error("std/string", name, second, " must be a string, got ", other, span));
        },
    };
    Ok((value, other))
}

/// `std/string.contains`.
pub fn string_contains(heap: &mut Heap, args: &[Value], span: Span) -> (r: NativeResult)
    ensures
        plain_model(r) == contains_spec(values_view(args@)),
        !(r matches Ok(Err(_))),
        located(r, span),
        final(heap)@ == old(heap)@,
{
    expect_arity(args, 2, "std/string", "contains", false, span)?;
    let (value, search) = two_strings(args, "contains", "search", span)?;
    let s = chars_of(value.as_str());
    let t = chars_of(search.as_str());
    let found = find_from(s.as_slice(), t.as_slice(), 0);
    proof {
        lemma_first_occurrence(s@, t@, 0);
    }
    Ok(Ok(Value::Bool(found.is_some())))
}

/// `std/string.starts_with`.
pub fn string_starts_with(heap: &mut Heap, args: &[Value], span: Span) -> (r: NativeResult)
    ensures
        plain_model(r) == starts_with_spec(values_view(args@)),
        !(r matches Ok(Err(_))),
        located(r, span),
        final(heap)@ == old(heap)@,
{
    expect_arity(args, 2, "std/string", "starts_with", false, span)?;
    let (value, prefix) = two_strings(args, "starts_with", "prefix", span)?;
    let s = chars_of(value.as_str());
    let t = chars_of(prefix.as_str());
    Ok(Ok(Value::Bool(occurs(s.as_slice(), t.as_slice(), 0))))
}

/// `std/string.ends_with`.
pub fn string_ends_with(heap: &mut Heap, args: &[Value], span: Span) -> (r: NativeResult)
    ensures
        plain_model(r) == ends_with_spec(values_view(args@)),
        !(r matches Ok(Err(_))),
        located(r, span),
        final(heap)@ == old(heap)@,
{
    expect_arity(args, 2, "std/string", "ends_with", false, span)?;
    let (value, suffix) = two_strings(args, "ends_with", "suffix", span)?;
    let s = chars_of(value.as_str());
    let t = chars_of(suffix.as_str());
    let found = t.len() <= s.len() && occurs(s.as_slice(), t.as_slice(), s.len() - t.len());
    Ok(Ok(Value::Bool(found)))
}

/// The fields of `s` cut at each occurrence of the nonempty `sep`.
fn split_fields(s: &[char], sep: &[char]) -> (fields: Vec<Value>)
    requires
        sep@.len() > 0,
    ensures
        values_view(fields@) == split_from(s@, sep@, 0).map_values(
            |field: Seq<char>| ValueV::String(field),
        ),
{
    let ghost target = split_from(s@, sep@, 0).map_values(|field: Seq<char>| ValueV::String(field));
    let mut fields: Vec<Value> = Vec::new();
    let mut start: usize = 0;
    let n = s.len();
    loop
        invariant
            n == s@.len(),
            sep@.len() > 0,
            start <= s@.len(),
            target == split_from(s@, sep@, 0).map_values(|field: Seq<char>| ValueV::String(field)),
            values_view(fields@) + split_from(s@, sep@, start as nat).map_values(
                |field: Seq<char>| ValueV::String(field),
            ) == target,
        decreases s@.len() - start,
    {
        let ghost rest = split_from(s@, sep@, start as nat);
        match find_from(s, sep, start) {
            None => {
                let field = string_from_range(s, start, s.len());
                proof {
                    assert(rest == seq![s@.subrange(start as int, s@.len() as int)]);
                }
                fields.push(Value::String(field));
                proof {
                    assert(values_view(fields@) =~= target);
                }
                return fields;
            },
            Some(i) => {
                proof {
                    lemma_first_occurrence(s@, sep@, start as nat);
                    assert(occurs_at(s@, sep@, i as int));
                    assert(i + sep@.len() <= s@.len());
                    assert(rest == seq![s@.subrange(start as int, i as int)] + split_from(
                        s@,
                        sep@,
                        (i + sep@.len()) as nat,
                    ));
                }
                let field = string_from_range(s, start, i);
                let ghost before = values_view(fields@);
                fields.push(Value::String(field));
                proof {
                    let tail = split_from(s@, sep@, (i + sep@.len()) as nat);
                    let f = |field: Seq<char>| ValueV::String(field);
                    assert(rest.map_values(f) =~= seq![ValueV::String(s@.subrange(start as int, i as int))] + tail.map_values(f));
                    assert(values_view(fields@) =~= before.push(ValueV::String(s@.subrange(start as int, i as int))));
                    assert(values_view(fields@) + tail.map_values(f) =~= before + rest.map_values(f));
                }
                start = i + sep.len();
            },
        }
    }
}

/// One single-character string per character of `s`.
fn split_characters(s: &[char]) -> (fields: Vec<Value>)
    ensures
        values_view(fields@) == Seq::new(s@.len(), |i: int| ValueV::String(seq![s@[i]])),
{
    let mut fields: Vec<Value> = Vec::new();
    let mut i: usize = 0;
    while i < s.len()
        invariant
            i <= s@.len(),
            values_view(fields@) == Seq::new(i as nat, |k: int| ValueV::String(seq![s@[k]])),
        decreases s@.len() - i,
    {
        let field = string_from_range(s, i, i + 1);
        assert(field@ =~= seq![s@[i as int]]);
        let ghost before = values_view(fields@);
        fields.push(Value::String(field));
        assert(values_view(fields@) =~= before.push(ValueV::String(seq![s@[i as int]])));
        i = i + 1;
        assert(values_view(fields@) =~= Seq::new(i as nat, |k: int| ValueV::String(seq![s@[k]])));
    }
    fields
}

/// `std/string.split`.
pub fn string_split(heap: &mut Heap, args: &[Value], span: Span) -> (r: NativeResult)
    ensures
        (native_model(r), final(heap)@) == split_spec(old(heap)@, values_view(args@)),
        located(r, span),
{
    expect_arity(args, 2, "std/string", "split", false, span)?;
    let (value, separator) = two_strings(args, "split", "separator", span)?;
    let s = chars_of(value.as_str());
    let sep = chars_of(separator.as_str());
    let parts = if sep.len() == 0 {
        split_characters(s.as_slice())
    } else {
        split_fields(s.as_slice(), sep.as_slice())
    };
    let list = heap.list(parts);
    proof {
        assert(heap@ =~= HeapV { lists: old(heap)@.lists.push(split_values(s@, sep@)), maps: old(heap)@.maps });
    }
    Ok(Ok(list))
}

/// `std/string.trim`.
pub fn string_trim(heap: &mut Heap, args: &[Value], span: Span) -> (r: NativeResult)
    ensures
        plain_model(r) == trim_spec(values_view(args@)),
        !(r matches Ok(Err(_))),
        located(r, span),
        final(heap)@ == old(heap)@,
{
    expect_arity(args, 1, "std/string", "trim", false, span)?;
    let value = match &args[0] {
        Value::String(s) => s,
        other => {
            return Err(argument_error("std/string", "trim", "value", " must be a string, got ", other, span));
        },
    };
    let s = chars_of(value.as_str());
    let n = s.len();
    let mut a: usize = 0;
    proof {
        assert(s@.subrange(0, n as int) =~= s@);
    }
    while a < n && white_space(s[a])
        invariant
            a <= n == s@.len(),
            trim_start(s@) == trim_start(s@.subrange(a as int, n as int)),
        decreases n - a,
    {
        proof {
            assert(s@.subrange(a as int, n as int).drop_first() =~= s@.subrange(a + 1, n as int));
        }
        a = a + 1;
    }
    let ghost kept = s@.subrange(a as int, n as int);
    assert(trim_start(kept) == kept);
    let mut b: usize = n;
    proof {
        assert(kept =~= s@.subrange(a as int, b as int));
    }
    while b > a && white_space(s[b - 1])
        invariant
            a <= b <= n == s@.len(),
            trim_end(kept) == trim_end(s@.subrange(a as int, b as int)),
        decreases b - a,
    {
        proof {
            assert(s@.subrange(a as int, b as int).drop_last() =~= s@.subrange(a as int, b - 1));
        }
        b = b - 1;
    }
    assert(trim_end(s@.subrange(a as int, b as int)) == s@.subrange(a as int, b as int));
    Ok(Ok(Value::String(string_from_range(s.as_slice(), a, b))))
}

/// `std/string.lower`.
pub fn string_lower(heap: &mut Heap, args: &[Value], span: Span) -> (r: NativeResult)
    ensures
        plain_model(r) == lower_spec(values_view(args@)),
        !(r matches Ok(Err(_))),
        located(r, span),
        final(heap)@ == old(heap)@,
{
    expect_arity(args, 1, "std/string", "lower", false, span)?;
    let value = match &args[0] {
        Value::String(s) => s,
        other => {
            return Err(argument_error("std/string", "lower", "value", " must be a string, got ", other, span));
        },
    };
    Ok(Ok(Value::String(to_lowercase(value.as_str()))))
}

/// `std/string.upper`.
pub fn string_upper(heap: &mut Heap, args: &[Value], span: Span) -> (r: NativeResult)
    ensures
        plain_model(r) == upper_spec(values_view(args@)),
        !(r matches Ok(Err(_))),
        located(r, span),
        final(heap)@ == old(heap)@,
{
    expect_arity(args, 1, "std/string", "upper", false, span)?;
    let value = match &args[0] {
        Value::String(s) => s,
        other => {
            return Err(argument_error("std/string", "upper", "value", " must be a string, got ", other, span));
        },
    };
    Ok(Ok(Value::String(to_uppercase(value.as_str()))))
}

} // verus!
