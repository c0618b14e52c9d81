//! Argument checks and diagnostics shared by the native standard-library functions.
use vstd::prelude::*;
use crate::error::{RuntimeError, RuntimeResult};
use crate::span::Span;
use crate::text::{int_decimal, nat_decimal, push_i64_decimal, push_str, push_u64_decimal};
use crate::error::{bounds_entries, NativeResult};
use crate::heap::HeapV;
use crate::value::{kind_name_of, Value, ValueV};

verus! {

/// `module.name`, the qualified name of a native function in diagnostics.
pub open spec fn qualified(module: Seq<char>, name: Seq<char>) -> Seq<char> {
    module + "."@ + name
}

/// Diagnostic for a call with the wrong number of arguments. With `singular_aware`, one expected
/// argument is written `argument` instead of `arguments`.
pub open spec fn arity_message(
    module: Seq<char>,
    name: Seq<char>,
    expected: nat,
    got: nat,
    singular_aware: bool,
) -> Seq<char> {
    qualified(module, name) + " expects "@ + nat_decimal(expected) + (if singular_aware
        && expected == 1 {
        " argument, got "@
    } else {
        " arguments, got "@
    }) + nat_decimal(got)
}

/// Diagnostic for an argument of the wrong category: the qualified name, a description, and the
/// category of the value received.
pub open spec fn category_message(
    module: Seq<char>,
    name: Seq<char>,
    description: Seq<char>,
    v: ValueV,
) -> Seq<char> {
    qualified(module, name) + description + kind_name_of(v)
}

/// Start of an index diagnostic: the qualified name and, when given, the argument's name.
pub open spec fn index_prefix(module: Seq<char>, name: Seq<char>, argument: Seq<char>) -> Seq<
    char,
> {
    if argument.len() == 0 {
        qualified(module, name) + " "@
    } else {
        qualified(module, name) + " "@ + argument + " "@
    }
}

/// The outcome of reading an index argument: the integer and its `usize` form, or the diagnostic.
pub open spec fn index_outcome(
    module: Seq<char>,
    name: Seq<char>,
    argument: Seq<char>,
    v: ValueV,
) -> Result<(i64, usize), Seq<char>> {
    match v {
        ValueV::Int(i) => if i < 0 {
            Err(index_prefix(module, name, argument) + "index must be nonnegative, got "@
                + int_decimal(i as int))
        } else if i > usize::MAX {
            Err(index_prefix(module, name, argument) + "index is too large"@)
        } else {
            Ok((i, i as usize))
        },
        _ => Err(index_prefix(module, name, argument) + "index must be an integer, got "@
            + kind_name_of(v)),
    }
}

/// A string with the given characters pushed to an empty string.
pub fn qualified_text(module: &str, name: &str) -> (text: String)
    ensures
        text@ == qualified(module@, name@),
{
    let mut text = String::new();
    push_str(&mut text, module);
    push_str(&mut text, ".");
    push_str(&mut text, name);
    proof {
        assert(text@ =~= qualified(module@, name@));
    }
    text
}

/// Checks the number of arguments.
pub fn expect_arity(
    args: &[Value],
    expected: usize,
    module: &str,
    name: &str,
    singular_aware: bool,
    span: Span,
) -> (r: RuntimeResult<()>)
    ensures
        r is Ok <==> args@.len() == expected,
        r matches Err(e) ==> e.span == span && e.message@ == arity_message(
            module@,
            name@,
            expected as nat,
            args@.len(),
            singular_aware,
        ),
{
    if args.len() == expected {
        return Ok(());
    }
    let mut message = qualified_text(module, name);
    push_str(&mut message, " expects ");
    push_u64_decimal(&mut message, expected as u64);
    if singular_aware && expected == 1 {
        push_str(&mut message, " argument, got ");
    } else {
        push_str(&mut message, " arguments, got ");
    }
    push_u64_decimal(&mut message, args.len() as u64);
    proof {
        assert(message@ =~= arity_message(module@, name@, expected as nat, args@.len(), singular_aware));
    }
    Err(RuntimeError::new(span, message))
}

/// The diagnostic for an argument of the wrong category.
pub fn category_error(
    module: &str,
    name: &str,
    description: &str,
    value: &Value,
    span: Span,
) -> (e: RuntimeError)
    ensures
        e.span == span,
        e.message@ == category_message(module@, name@, description@, value@),
{
    let mut message = qualified_text(module, name);
    push_str(&mut message, description);
    push_str(&mut message, value.kind_name());
    proof {
        assert(message@ =~= category_message(module@, name@, description@, value@));
    }
    RuntimeError::new(span, message)
}

/// Like [`category_error`], with a description assembled from `argument` and `requirement`:
/// ` <argument><requirement>`.
pub fn argument_error(
    module: &str,
    name: &str,
    argument: &str,
    requirement: &str,
    value: &Value,
    span: Span,
) -> (e: RuntimeError)
    ensures
        e.span == span,
        e.message@ == category_message(module@, name@, " "@ + argument@ + requirement@, value@),
{
    let mut message = qualified_text(module, name);
    push_str(&mut message, " ");
    push_str(&mut message, argument);
    push_str(&mut message, requirement);
    push_str(&mut message, value.kind_name());
    proof {
        assert(message@ =~= category_message(
            module@,
            name@,
            " "@ + argument@ + requirement@,
            value@,
        ));
    }
    RuntimeError::new(span, message)
}

fn index_prefix_text(module: &str, name: &str, argument: &str) -> (text: String)
    ensures
        text@ == index_prefix(module@, name@, argument@),
{
    let mut text = qualified_text(module, name);
    push_str(&mut text, " ");
    if !argument.is_empty() {
        push_str(&mut text, argument);
        push_str(&mut text, " ");
    }
    proof {
        assert(text@ =~= index_prefix(module@, name@, argument@));
    }
    text
}

/// Reads a nonnegative integer index that fits a `usize`; `argument` names it in diagnostics
/// (empty for no name).
pub fn expect_index(value: &Value, module: &str, name: &str, argument: &str, span: Span) -> (r:
    RuntimeResult<(i64, usize)>)
    ensures
        match index_outcome(module@, name@, argument@, value@) {
            Ok(pair) => r == Ok::<(i64, usize), RuntimeError>(pair),
            Err(message) => r is Err && r->Err_0.span == span && r->Err_0.message@ == message,
        },
{
    match value {
        Value::Int(index) => {
            let index = *index;
            if index < 0 {
                let mut message = index_prefix_text(module, name, argument);
                push_str(&mut message, "index must be nonnegative, got ");
                push_i64_decimal(&mut message, index);
                Err(RuntimeError::new(span, message))
            } else if index as u64 > usize::MAX as u64 {
                let mut message = index_prefix_text(module, name, argument);
                push_str(&mut message, "index is too large");
                Err(RuntimeError::new(span, message))
            } else {
                Ok((index, index as usize))
            }
        },
        _ => {
            let mut message = index_prefix_text(module, name, argument);
            push_str(&mut message, "index must be an integer, got ");
            push_str(&mut message, value.kind_name());
            Err(RuntimeError::new(span, message))
        },
    }
}

/// The diagnostic for a list or map reference that the heap cannot lend.
pub fn borrow_error(module: &str, name: &str, container: &str, span: Span) -> (e: RuntimeError)
    ensures
        e.span == span,
        e.message@ == qualified(module@, name@) + " could not borrow "@ + container@,
{
    let mut message = qualified_text(module, name);
    push_str(&mut message, " could not borrow ");
    push_str(&mut message, container);
    RuntimeError::new(span, message)
}

/// A diagnostic made of the qualified name followed by `detail`.
pub fn qualified_error(module: &str, name: &str, detail: &str, span: Span) -> (e: RuntimeError)
    ensures
        e.span == span,
        e.message@ == qualified(module@, name@) + detail@,
{
    let mut message = qualified_text(module, name);
    push_str(&mut message, detail);
    RuntimeError::new(span, message)
}


/// The model of a native result that does not raise: the value returned, or the message of the
/// hard error.
pub open spec fn plain_model(r: crate::error::NativeResult) -> Result<ValueV, Seq<char>> {
    match r {
        Ok(Ok(v)) => Ok(v@),
        Ok(Err(raised)) => Err(Seq::empty()),
        Err(e) => Err(e.message@),
    }
}

/// The arity diagnostic for `args`, if their number is not `expected`.
pub open spec fn arity_check(
    args: Seq<ValueV>,
    expected: nat,
    module: Seq<char>,
    name: Seq<char>,
    singular_aware: bool,
) -> Option<Seq<char>> {
    if args.len() == expected {
        None
    } else {
        Some(arity_message(module, name, expected, args.len(), singular_aware))
    }
}


/// The model of a native result: the value returned, the value raised, or the message of the
/// hard error.
pub enum NativeModel {
    Returns(ValueV),
    Raises(ValueV),
    Fails(Seq<char>),
}

/// The model of a native result.
pub open spec fn native_model(r: NativeResult) -> NativeModel {
    match r {
        Ok(Ok(v)) => NativeModel::Returns(v@),
        Ok(Err(raised)) => NativeModel::Raises(raised.value@),
        Err(e) => NativeModel::Fails(e.message@),
    }
}

/// Whether every hard error and raise of `r` is located at `span`, and raises carry no frames
/// and no cause.
pub open spec fn located(r: NativeResult, span: Span) -> bool {
    &&& r matches Err(e) ==> e.span == span
    &&& r matches Ok(Err(raised)) ==> raised.origin == span && raised.frames@.len() == 0
        && raised.cause is None
}

/// Raising the index-out-of-bounds map for `index` in a container of `length` elements: the
/// outcome and the heap after it.
pub open spec fn bounds_raise(h: HeapV, index: i64, length: nat) -> (NativeModel, HeapV) {
    if length > i64::MAX {
        (NativeModel::Fails("index length exceeds i64"@), h)
    } else {
        (
            NativeModel::Raises(ValueV::Table(h.maps.len() as usize)),
            HeapV { lists: h.lists, maps: h.maps.push(bounds_entries(index, length as i64)) },
        )
    }
}

} // verus!
