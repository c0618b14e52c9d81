//! `std/utf8`: UTF-8 encoding of strings.
use vstd::prelude::*;
use vstd::utf8::{decode_utf8, encode_utf8, encode_utf8_decode_utf8, valid_utf8};
use vstd::string::*;
use crate::error::NativeResult;
use crate::heap::Heap;
use crate::span::Span;
use crate::value::{values_view, Bytes, Value, ValueV};
use crate::native::support::{
    argument_error, arity_check, category_message, expect_arity, plain_model,
};

verus! {

/// The module name used in diagnostics.
pub open spec fn module() -> Seq<char> {
    "std/utf8"@
}

/// `encode(text)`: the UTF-8 bytes of a string.
pub open spec fn encode_spec(args: Seq<ValueV>) -> Result<ValueV, Seq<char>> {
    match arity_check(args, 1, module(), "encode"@, true) {
        Some(m) => Err(m),
        None => match args[0] {
            ValueV::String(s) => Ok(ValueV::Bytes(encode_utf8(s))),
            v => Err(category_message(module(), "encode"@, " "@ + "text"@ + " must be a string, got "@, v)),
        },
    }
}

/// `decode(data)`: the string whose UTF-8 encoding the bytes are, or `nil` for invalid UTF-8.
pub open spec fn decode_spec(args: Seq<ValueV>) -> Result<ValueV, Seq<char>> {
    match arity_check(args, 1, module(), "decode"@, true) {
        Some(m) => Err(m),
        None => match args[0] {
            ValueV::Bytes(b) => Ok(
                if valid_utf8(b) {
                    ValueV::String(decode_utf8(b))
                } else {
                    ValueV::Nil
                },
            ),
            v => Err(category_message(module(), "decode"@, " "@ + "data"@ + " must be bytes, got "@, v)),
        },
    }
}

/// Validates UTF-8 with `std::str::from_utf8`, which accepts exactly the well-formed UTF-8 byte
/// sequences and returns the string they encode.
#[verifier::external_body]
fn str_from_utf8(bytes: &[u8]) -> (r: Option<&str>)
    ensures
        r is Some <==> valid_utf8(bytes@),
        r matches Some(s) ==> s.spec_bytes() == bytes@,
{
    std::str::from_utf8(bytes).ok()
}

/// `std/utf8.encode`.
pub fn utf8_encode(heap: &mut Heap, args: &[Value], span: Span) -> (r: NativeResult)
    ensures
        plain_model(r) == encode_spec(values_view(args@)),
        !(r matches Ok(Err(_))),
        r matches Err(e) ==> e.span == span,
        final(heap)@ == old(heap)@,
{
    expect_arity(args, 1, "std/utf8", "encode", true, span)?;
    match &args[0] {
        Value::String(text) => {
            let bytes = text.as_str().as_bytes_vec();
            Ok(Ok(Value::Bytes(Bytes::new(bytes))))
        },
        value => Err(argument_error("std/utf8", "encode", "text", " must be a string, got ", value, span)),
    }
}

/// `std/utf8.decode`.
pub fn utf8_decode(heap: &mut Heap, args: &[Value], span: Span) -> (r: NativeResult)
    ensures
        plain_model(r) == decode_spec(values_view(args@)),
        !(r matches Ok(Err(_))),
        r matches Err(e) ==> e.span == span,
        final(heap)@ == old(heap)@,
{
    expect_arity(args, 1, "std/utf8", "decode", true, span)?;
    match &args[0] {
        Value::Bytes(bytes) => match str_from_utf8(bytes.as_slice()) {
            Some(text) => {
                proof {
                    encode_utf8_decode_utf8(text@);
                }
                Ok(Ok(Value::String(text.to_owned())))
            },
            None => Ok(Ok(Value::Nil)),
        },
        value => Err(argument_error("std/utf8", "decode", "data", " must be bytes, got ", value, span)),
    }
}

} // verus!
