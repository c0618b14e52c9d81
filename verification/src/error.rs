//! Hard runtime errors, raised language values and the library's error sum.
use vstd::prelude::*;
use crate::heap::Heap;
use crate::span::Span;

use crate::value::{MapKey, MapKeyV, Value, ValueV};

verus! {

/// A hard error: it is not catchable by the language's `try`.
#[derive(Clone, Debug)]
pub struct RuntimeError {
    pub span: Span,
    pub message: String,
}

impl RuntimeError {
    pub fn new(span: Span, message: String) -> (e: RuntimeError)
        ensures
            e.span == span,
            e.message@ == message@,
    {
        RuntimeError { span, message }
    }
}

/// A lexical error with the span of the offending text.
#[derive(Clone, Debug, PartialEq, Eq)]
pub struct LexError {
    pub span: Span,
    pub message: String,
}

/// A syntax error with the span of the offending text.
#[derive(Clone, Debug, PartialEq, Eq)]
pub struct ParseError {
    pub span: Span,
    pub message: String,
}

/// One entered function call on the way to a raise, innermost first.
#[derive(Clone, Debug)]
pub struct TraceFrame {
    pub function: String,
    pub call_span: Span,
}

/// A value raised by the language, with where it was raised, the calls it passed through, and
/// the raise that was being handled when it was raised.
#[derive(Debug)]
pub struct Raised {
    pub value: Value,
    pub origin: Span,
    pub frames: Vec<TraceFrame>,
    pub cause: Option<Box<Raised>>,
}

/// Result of a native function: a hard error, or a value or a raise.
pub type NativeResult = Result<Result<Value, Raised>, RuntimeError>;

/// Result of an operation that can fail with a hard error.
pub type RuntimeResult<T> = Result<T, RuntimeError>;

/// Any error the library reports for a source text.
#[derive(Clone, Debug)]
pub enum SimiError {
    Lex(LexError),
    Parse(ParseError),
    Runtime(RuntimeError),
}

impl SimiError {
    /// The span of the error, whatever its kind.
    pub fn span(&self) -> (span: Span)
        ensures
            span == match self {
                SimiError::Lex(e) => e.span,
                SimiError::Parse(e) => e.span,
                SimiError::Runtime(e) => e.span,
            },
    {
        match self {
            SimiError::Lex(error) => error.span,
            SimiError::Parse(error) => error.span,
            SimiError::Runtime(error) => error.span,
        }
    }
}

impl SimiError {
    /// The error's message, whatever its kind.
    pub open spec fn message_view(&self) -> Seq<char> {
        match self {
            SimiError::Lex(e) => e.message@,
            SimiError::Parse(e) => e.message@,
            SimiError::Runtime(e) => e.message@,
        }
    }

    /// The error's message, whatever its kind.
    pub fn message(&self) -> (m: String)
        ensures
            m@ == self.message_view(),
    {
        match self {
            SimiError::Lex(e) => e.message.clone(),
            SimiError::Parse(e) => e.message.clone(),
            SimiError::Runtime(e) => e.message.clone(),
        }
    }
}

/// The entries of the map raised for an index outside `[0, length)`.
pub open spec fn bounds_entries(index: i64, length: i64) -> Seq<(MapKeyV, ValueV)> {
    seq![
        (MapKeyV::String("error"@), ValueV::String("index_out_of_bounds"@)),
        (MapKeyV::String("index"@), ValueV::Int(index)),
        (MapKeyV::String("length"@), ValueV::Int(length)),
    ]
}

/// The entries of the map raised when a stream operation fails.
pub open spec fn io_error_entries(operation: Seq<char>, message: Seq<char>) -> Seq<(MapKeyV, ValueV)> {
    seq![
        (MapKeyV::String("error"@), ValueV::String("io_error"@)),
        (MapKeyV::String("operation"@), ValueV::String(operation)),
        (MapKeyV::String("message"@), ValueV::String(message)),
    ]
}

impl Raised {
    /// A raise with no frames and no cause.
    pub fn new(value: Value, origin: Span) -> (r: Raised)
        ensures
            r.value@ == value@,
            r.origin == origin,
            r.frames@.len() == 0,
            r.cause is None,
    {
        Raised { value, origin, frames: Vec::new(), cause: None }
    }

    /// The raise for an index outside a container of `length` elements: a new map
    /// `{error="index_out_of_bounds", index=..., length=...}`. Fails when the length does not fit
    /// an `i64`.
    pub fn index_out_of_bounds(heap: &mut Heap, index: i64, length: usize, span: Span) -> (r:
        RuntimeResult<Raised>)
        ensures
            length > i64::MAX ==> r is Err && final(heap)@ == old(heap)@,
            length > i64::MAX ==> r->Err_0.span == span && r->Err_0.message@
                == "index length exceeds i64"@,
            length <= i64::MAX ==> r is Ok,
            r matches Ok(raised) ==> {
                &&& raised.value@ == ValueV::Table(old(heap)@.maps.len() as usize)
                &&& final(heap)@.maps == old(heap)@.maps.push(
                    bounds_entries(index, length as i64),
                )
                &&& final(heap)@.lists == old(heap)@.lists
                &&& raised.origin == span
                &&& raised.frames@.len() == 0
                &&& raised.cause is None
            },
    {
        if length as u64 > i64::MAX as u64 {
            return Err(RuntimeError::new(span, "index length exceeds i64".to_owned()));
        }
        let mut entries: Vec<(MapKey, Value)> = Vec::new();
        entries.push((MapKey::String("error".to_owned()), Value::String("index_out_of_bounds".to_owned())));
        entries.push((MapKey::String("index".to_owned()), Value::Int(index)));
        entries.push((MapKey::String("length".to_owned()), Value::Int(length as i64)));
        let value = heap.map(entries);
        proof {
            assert(crate::value::entries_view(entries@) =~= bounds_entries(index, length as i64));
        }
        Ok(Raised::new(value, span))
    }

    /// The raise for a failed stream operation: a new map
    /// `{error="io_error", operation=..., message=...}`.
    pub fn io_error(heap: &mut Heap, operation: &str, message: String, span: Span) -> (r: Raised)
        ensures
            r.value@ == ValueV::Table(old(heap)@.maps.len() as usize),
            final(heap)@.maps == old(heap)@.maps.push(io_error_entries(operation@, message@)),
            final(heap)@.lists == old(heap)@.lists,
            r.origin == span,
            r.frames@.len() == 0,
            r.cause is None,
    {
        let mut entries: Vec<(MapKey, Value)> = Vec::new();
        entries.push((MapKey::String("error".to_owned()), Value::String("io_error".to_owned())));
        entries.push((MapKey::String("operation".to_owned()), Value::String(operation.to_owned())));
        entries.push((MapKey::String("message".to_owned()), Value::String(message)));
        let value = heap.map(entries);
        proof {
            assert(crate::value::entries_view(entries@) =~= io_error_entries(operation@, message@));
        }
        Raised::new(value, span)
    }
}

} // verus!
