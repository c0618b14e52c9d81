//! `std/utf16`: UTF-16 encoding of strings, in little- and big-endian byte order.
use vstd::prelude::*;
use vstd::utf8::{char_is_scalar, char_u32_cast, is_scalar};
use crate::error::NativeResult;
use crate::heap::Heap;
use crate::span::Span;
use crate::text::{chars_of, push_char};
use crate::value::{values_view, Bytes, Value, ValueV};
use crate::native::support::{argument_error, arity_check, category_message, expect_arity, plain_model};

verus! {

broadcast use char_is_scalar, char_u32_cast;

/// The module name used in diagnostics.
pub open spec fn module() -> Seq<char> {
    "std/utf16"@
}

/// The UTF-16 code units of one character: itself below `0x10000`, otherwise a surrogate pair.
pub open spec fn char_units(c: char) -> Seq<u16> {
    let v = c as u32;
    if v < 0x10000 {
        seq![v as u16]
    } else {
        let w = (v - 0x10000) as u32;
        seq![(0xD800 + w / 1024) as u16, (0xDC00 + w % 1024) as u16]
    }
}

/// The UTF-16 code units of a string.
pub open spec fn encode_utf16(s: Seq<char>) -> Seq<u16>
    decreases s.len(),
{
    if s.len() == 0 {
        Seq::empty()
    } else {
        char_units(s[0]) + encode_utf16(s.drop_first())
    }
}

/// Whether a unit is a leading (high) surrogate.
pub open spec fn is_high_surrogate(u: u16) -> bool {
    0xD800 <= u <= 0xDBFF
}

/// Whether a unit is a trailing (low) surrogate.
pub open spec fn is_low_surrogate(u: u16) -> bool {
    0xDC00 <= u <= 0xDFFF
}

/// The scalar value of a surrogate pair.
pub open spec fn pair_scalar(high: u16, low: u16) -> u32 {
    (0x10000 + ((high as int) - 0xD800) * 1024 + ((low as int) - 0xDC00)) as u32
}

/// The string a sequence of code units encodes, or `None` when a surrogate is unpaired.
pub open spec fn decode_utf16(units: Seq<u16>) -> Option<Seq<char>>
    decreases units.len(),
{
    if units.len() == 0 {
        Some(Seq::empty())
    } else if !is_high_surrogate(units[0]) && !is_low_surrogate(units[0]) {
        match decode_utf16(units.drop_first()) {
            Some(t) => Some(seq![(units[0] as u32) as char] + t),
            None => None,
        }
    } else if is_high_surrogate(units[0]) && units.len() >= 2 && is_low_surrogate(units[1]) {
        match decode_utf16(units.skip(2)) {
            Some(t) => Some(seq![pair_scalar(units[0], units[1]) as char] + t),
            None => None,
        }
    } else {
        None
    }
}

/// Code units as bytes, low byte first.
pub open spec fn units_to_le(units: Seq<u16>) -> Seq<u8> {
    Seq::new(
        2 * units.len(),
        |k: int|
            if k % 2 == 0 {
                (units[k / 2] & 0xffu16) as u8
            } else {
                (units[k / 2] >> 8u16) as u8
            },
    )
}

/// Code units as bytes, high byte first.
pub open spec fn units_to_be(units: Seq<u16>) -> Seq<u8> {
    Seq::new(
        2 * units.len(),
        |k: int|
            if k % 2 == 0 {
                (units[k / 2] >> 8u16) as u8
            } else {
                (units[k / 2] & 0xffu16) as u8
            },
    )
}

/// Bytes read as code units, low byte first; a trailing odd byte is ignored.
pub open spec fn le_to_units(bytes: Seq<u8>) -> Seq<u16> {
    Seq::new(bytes.len() / 2, |k: int| ((bytes[2 * k] as u16) | ((bytes[2 * k + 1] as u16) << 8u16)) as u16)
}

/// Bytes read as code units, high byte first; a trailing odd byte is ignored.
pub open spec fn be_to_units(bytes: Seq<u8>) -> Seq<u16> {
    Seq::new(bytes.len() / 2, |k: int| (((bytes[2 * k] as u16) << 8u16) | (bytes[2 * k + 1] as u16)) as u16)
}

/// The byte order of an encoding.
pub enum Order {
    Little,
    Big,
}

/// The bytes of a string in the given order.
pub open spec fn encode_bytes(s: Seq<char>, little: bool) -> Seq<u8> {
    if little { units_to_le(encode_utf16(s)) } else { units_to_be(encode_utf16(s)) }
}

/// The string given by bytes in the given order, or `None` for an odd length or an unpaired
/// surrogate.
pub open spec fn decode_bytes(b: Seq<u8>, little: bool) -> Option<Seq<char>> {
    if b.len() % 2 != 0 {
        None
    } else if little {
        decode_utf16(le_to_units(b))
    } else {
        decode_utf16(be_to_units(b))
    }
}

/// `encode_le(text)` and `encode_be(text)`.
pub open spec fn encode_spec(args: Seq<ValueV>, name: Seq<char>, little: bool) -> Result<ValueV, Seq<char>> {
    match arity_check(args, 1, module(), name, true) {
        Some(m) => Err(m),
        None => match args[0] {
            ValueV::String(s) => Ok(ValueV::Bytes(encode_bytes(s, little))),
            v => Err(category_message(module(), name, " "@ + "text"@ + " must be a string, got "@, v)),
        },
    }
}

/// `decode_le(data)` and `decode_be(data)`: the decoded string, or `nil`.
pub open spec fn decode_spec(args: Seq<ValueV>, name: Seq<char>, little: bool) -> Result<ValueV, Seq<char>> {
    match arity_check(args, 1, module(), name, true) {
        Some(m) => Err(m),
        None => match args[0] {
            ValueV::Bytes(b) => Ok(
                match decode_bytes(b, little) {
                    Some(s) => ValueV::String(s),
                    None => ValueV::Nil,
                },
            ),
            v => Err(category_message(module(), name, " "@ + "data"@ + " must be bytes, got "@, v)),
        },
    }
}

proof fn lemma_encode_concat(a: Seq<char>, b: Seq<char>)
    ensures
        encode_utf16(a + b) == encode_utf16(a) + encode_utf16(b),
    decreases a.len(),
{
    if a.len() == 0 {
        assert(a + b =~= b);
        assert(encode_utf16(a) + encode_utf16(b) =~= encode_utf16(b));
    } else {
        assert((a + b).drop_first() =~= a.drop_first() + b);
        lemma_encode_concat(a.drop_first(), b);
        assert(encode_utf16(a + b) =~= encode_utf16(a) + encode_utf16(b));
    }
}

proof fn lemma_char_units(c: char)
    ensures
        (c as u32) < 0x10000 ==> char_units(c).len() == 1 && !is_high_surrogate(char_units(c)[0])
            && !is_low_surrogate(char_units(c)[0]) && ((char_units(c)[0] as u32) as char) == c,
        (c as u32) >= 0x10000 ==> char_units(c).len() == 2 && is_high_surrogate(char_units(c)[0])
            && is_low_surrogate(char_units(c)[1]) && (pair_scalar(char_units(c)[0], char_units(c)[1]) as char) == c,
{
    let v = c as u32;
    assert(is_scalar(v));
    if v >= 0x10000 {
        let w = (v - 0x10000) as u32;
        let hi = (0xD800 + w / 1024) as u16;
        let lo = (0xDC00 + w % 1024) as u16;
        assert(w < 0x100000);
        assert(0 <= w % 1024 < 1024);
        assert(w / 1024 < 1024);
        assert(w == (w / 1024) * 1024 + w % 1024);
    }
}

/// Decoding the UTF-16 encoding of a string gives the string back.
pub proof fn lemma_utf16_round_trip(s: Seq<char>)
    ensures
        decode_utf16(encode_utf16(s)) == Some(s),
    decreases s.len(),
{
    if s.len() > 0 {
        let c = s[0];
        let rest = encode_utf16(s.drop_first());
        lemma_utf16_round_trip(s.drop_first());
        lemma_char_units(c);
        let units = encode_utf16(s);
        assert(units == char_units(c) + rest);
        if (c as u32) < 0x10000 {
            assert(units.drop_first() =~= rest);
        } else {
            assert(units.skip(2) =~= rest);
        }
        assert(seq![c] + s.drop_first() =~= s);
    }
}

proof fn lemma_le_round_trip(units: Seq<u16>)
    ensures
        le_to_units(units_to_le(units)) == units,
{
    let b = units_to_le(units);
    assert forall|k: int| 0 <= k < units.len() implies #[trigger] le_to_units(b)[k] == units[k] by {
        let u = units[k];
        assert(b[2 * k] == (u & 0xffu16) as u8);
        assert(b[2 * k + 1] == (u >> 8u16) as u8);
        assert((((u & 0xffu16) as u8) as u16 | ((((u >> 8u16) as u8) as u16) << 8u16)) == u) by (bit_vector);
    }
    assert(le_to_units(b) =~= units);
}

proof fn lemma_be_round_trip(units: Seq<u16>)
    ensures
        be_to_units(units_to_be(units)) == units,
{
    let b = units_to_be(units);
    assert forall|k: int| 0 <= k < units.len() implies #[trigger] be_to_units(b)[k] == units[k] by {
        let u = units[k];
        assert(b[2 * k] == (u >> 8u16) as u8);
        assert(b[2 * k + 1] == (u & 0xffu16) as u8);
        assert(((((u >> 8u16) as u8) as u16) << 8u16 | (((u & 0xffu16) as u8) as u16)) == u) by (bit_vector);
    }
    assert(be_to_units(b) =~= units);
}

/// Decoding the bytes that encoding a string gives, in the same byte order, gives the string
/// back.
pub proof fn lemma_bytes_round_trip(s: Seq<char>, little: bool)
    ensures
        decode_bytes(encode_bytes(s, little), little) == Some(s),
{
    lemma_utf16_round_trip(s);
    let units = encode_utf16(s);
    if little {
        lemma_le_round_trip(units);
        assert(units_to_le(units).len() % 2 == 0) by (nonlinear_arith)
            requires
                units_to_le(units).len() == 2 * units.len(),
        ;
    } else {
        lemma_be_round_trip(units);
        assert(units_to_be(units).len() % 2 == 0) by (nonlinear_arith)
            requires
                units_to_be(units).len() == 2 * units.len(),
        ;
    }
}

fn push_char_units(units: &mut Vec<u16>, c: char)
    ensures
        final(units)@ == old(units)@ + char_units(c),
{
    let v = c as u32;
    if v < 0x10000 {
        units.push(v as u16);
        assert(units@ =~= old(units)@ + char_units(c));
    } else {
        let w = v - 0x10000;
        assert(v <= 0x10FFFF) by {
            assert(is_scalar(c as u32));
        }
        units.push((0xD800 + w / 1024) as u16);
        units.push((0xDC00 + w % 1024) as u16);
        assert(units@ =~= old(units)@ + char_units(c));
    }
}

/// The UTF-16 code units of a string.
pub fn encode_units(text: &str) -> (units: Vec<u16>)
    ensures
        units@ == encode_utf16(text@),
{
    let chars = chars_of(text);
    let mut units: Vec<u16> = Vec::new();
    let mut i: usize = 0;
    while i < chars.len()
        invariant
            i <= chars@.len(),
            units@ == encode_utf16(chars@.take(i as int)),
        decreases chars@.len() - i,
    {
        push_char_units(&mut units, chars[i]);
        proof {
            lemma_encode_concat(chars@.take(i as int), seq![chars@[i as int]]);
            assert(chars@.take(i + 1) =~= chars@.take(i as int) + seq![chars@[i as int]]);
            assert(encode_utf16(seq![chars@[i as int]]) =~= char_units(chars@[i as int])) by {
                assert(seq![chars@[i as int]].drop_first() =~= Seq::<char>::empty());
                assert(encode_utf16(Seq::<char>::empty()) == Seq::<u16>::empty());
                assert(char_units(chars@[i as int]) + Seq::<u16>::empty() =~= char_units(chars@[i as int]));
            }
        }
        i = i + 1;
    }
    assert(chars@.take(i as int) =~= chars@);
    units
}

fn units_to_bytes(units: &Vec<u16>, little: bool) -> (bytes: Vec<u8>)
    ensures
        bytes@ == (if little { units_to_le(units@) } else { units_to_be(units@) }),
{
    let mut bytes: Vec<u8> = Vec::new();
    let mut i: usize = 0;
    while i < units.len()
        invariant
            i <= units@.len(),
            bytes@.len() == 2 * i,
            forall|k: int| 0 <= k < 2 * i ==> #[trigger] bytes@[k] == (if little { units_to_le(units@) } else { units_to_be(units@) })[k],
        decreases units@.len() - i,
    {
        let u = units[i];
        let low = (u & 0xff) as u8;
        let high = (u >> 8) as u8;
        if little {
            bytes.push(low);
            bytes.push(high);
        } else {
            bytes.push(high);
            bytes.push(low);
        }
        proof {
            assert((2 * i) / 2 == i as int) by (nonlinear_arith);
            assert((2 * i + 1) / 2 == i as int) by (nonlinear_arith);
            assert((2 * i) % 2 == 0) by (nonlinear_arith);
            assert((2 * i + 1) % 2 == 1) by (nonlinear_arith);
        }
        i = i + 1;
    }
    let ghost expected = if little { units_to_le(units@) } else { units_to_be(units@) };
    assert(bytes@ =~= expected);
    bytes
}

fn bytes_to_units(bytes: &[u8], little: bool) -> (units: Vec<u16>)
    requires
        bytes@.len() % 2 == 0,
    ensures
        units@ == (if little { le_to_units(bytes@) } else { be_to_units(bytes@) }),
{
    let ghost expected = if little { le_to_units(bytes@) } else { be_to_units(bytes@) };
    let mut units: Vec<u16> = Vec::new();
    let mut i: usize = 0;
    while i + 1 < bytes.len()
        invariant
            i % 2 == 0,
            i <= bytes@.len(),
            bytes@.len() % 2 == 0,
            units@.len() == i / 2,
            expected.len() == bytes@.len() / 2,
            expected == (if little { le_to_units(bytes@) } else { be_to_units(bytes@) }),
            forall|k: int| 0 <= k < i / 2 ==> #[trigger] units@[k] == expected[k],
        decreases bytes@.len() - i,
    {
        let first = bytes[i] as u16;
        let second = bytes[i + 1] as u16;
        let unit = if little { first | (second << 8) } else { (first << 8) | second };
        units.push(unit);
        proof {
            assert(2 * (i as int / 2) == i) by (nonlinear_arith)
                requires
                    i % 2 == 0,
            ;
            assert((i + 2) / 2 == i / 2 + 1) by (nonlinear_arith);
        }
        i = i + 2;
    }
    proof {
        assert(i == bytes@.len()) by (nonlinear_arith)
            requires
                i % 2 == 0,
                bytes@.len() % 2 == 0,
                i <= bytes@.len(),
                i + 1 >= bytes@.len(),
        ;
    }
    assert(units@ =~= expected);
    units
}

/// Builds the character for a code point with `char::from_u32`, which returns a character
/// exactly for the Unicode scalar values (at most `0x10FFFF` and not a surrogate).
#[verifier::external_body]
fn char_from_u32(v: u32) -> (c: Option<char>)
    ensures
        c is Some <==> is_scalar(v),
        c matches Some(ch) ==> ch as u32 == v,
{
    char::from_u32(v)
}

/// The string a sequence of code units encodes, or `None` for an unpaired surrogate.
#[verifier::loop_isolation(false)]
pub fn decode_units(units: &Vec<u16>) -> (r: Option<String>)
    ensures
        match decode_utf16(units@) {
            Some(s) => r is Some && r->Some_0@ == s,
            None => r is None,
        },
{
    let mut out = String::new();
    let mut i: usize = 0;
    proof {
        assert(units@.skip(0) =~= units@);
        match decode_utf16(units@) {
            Some(t) => {
                assert(out@ + t =~= t);
            },
            None => {},
        }
    }
    while i < units.len()
        invariant
            i <= units@.len(),
            match decode_utf16(units@.skip(i as int)) {
                Some(t) => decode_utf16(units@) == Some(out@ + t),
                None => decode_utf16(units@) is None,
            },
        decreases units@.len() - i,
    {
        let ghost rest = units@.skip(i as int);
        let u = units[i];
        assert(rest[0] == u);
        if !(0xD800 <= u && u <= 0xDBFF) && !(0xDC00 <= u && u <= 0xDFFF) {
            let c = match char_from_u32(u as u32) {
                Some(c) => c,
                None => {
                    assert(is_scalar(u as u32));
                    return None;
                },
            };
            let ghost prev = out@;
            push_char(&mut out, c);
            proof {
                assert(rest.drop_first() =~= units@.skip(i + 1));
                char_u32_cast(c, u as u32);
                assert((u as u32) as char == c);
                match decode_utf16(units@.skip(i + 1)) {
                    Some(t) => {
                        assert(out@ + t =~= prev + (seq![c] + t));
                    },
                    None => {},
                }
            }
            i = i + 1;
        } else if 0xD800 <= u && u <= 0xDBFF && i + 1 < units.len() && 0xDC00 <= units[i + 1]
            && units[i + 1] <= 0xDFFF {
            let low = units[i + 1];
            assert(rest[1] == low);
            let v = 0x10000u32 + ((u as u32) - 0xD800u32) * 1024 + ((low as u32) - 0xDC00u32);
            assert(v == pair_scalar(u, low) && is_scalar(v));
            let c = match char_from_u32(v) {
                Some(c) => c,
                None => {
                    return None;
                },
            };
            let ghost prev = out@;
            push_char(&mut out, c);
            proof {
                assert(rest.skip(2) =~= units@.skip(i + 2));
                char_u32_cast(c, v);
                assert(v as char == c);
                match decode_utf16(units@.skip(i + 2)) {
                    Some(t) => {
                        assert(out@ + t =~= prev + (seq![c] + t));
                    },
                    None => {},
                }
            }
            i = i + 2;
        } else {
            return None;
        }
    }
    proof {
        assert(units@.skip(i as int) =~= Seq::<u16>::empty());
        assert(out@ + Seq::<char>::empty() =~= out@);
    }
    Some(out)
}

fn encode_native(args: &[Value], name: &str, little: bool, span: Span) -> (r: NativeResult)
    ensures
        plain_model(r) == encode_spec(values_view(args@), name@, little),
        !(r matches Ok(Err(_))),
        r matches Err(e) ==> e.span == span,
{
    expect_arity(args, 1, "std/utf16", name, true, span)?;
    match &args[0] {
        Value::String(text) => {
            let units = encode_units(text.as_str());
            Ok(Ok(Value::Bytes(Bytes::new(units_to_bytes(&units, little)))))
        },
        value => Err(argument_error("std/utf16", name, "text", " must be a string, got ", value, span)),
    }
}

fn decode_native(args: &[Value], name: &str, little: bool, span: Span) -> (r: NativeResult)
    ensures
        plain_model(r) == decode_spec(values_view(args@), name@, little),
        !(r matches Ok(Err(_))),
        r matches Err(e) ==> e.span == span,
{
    expect_arity(args, 1, "std/utf16", name, true, span)?;
    match &args[0] {
        Value::Bytes(bytes) => {
            let data = bytes.as_slice();
            if data.len() % 2 != 0 {
                return Ok(Ok(Value::Nil));
            }
            let units = bytes_to_units(data, little);
            match decode_units(&units) {
                Some(text) => Ok(Ok(Value::String(text))),
                None => Ok(Ok(Value::Nil)),
            }
        },
        value => Err(argument_error("std/utf16", name, "data", " must be bytes, got ", value, span)),
    }
}

/// `std/utf16.encode_le`.
pub fn utf16_encode_le(heap: &mut Heap, args: &[Value], span: Span) -> (r: NativeResult)
    ensures
        plain_model(r) == encode_spec(values_view(args@), "encode_le"@, true),
        !(r matches Ok(Err(_))),
        r matches Err(e) ==> e.span == span,
        final(heap)@ == old(heap)@,
{
    encode_native(args, "encode_le", true, span)
}

/// `std/utf16.encode_be`.
pub fn utf16_encode_be(heap: &mut Heap, args: &[Value], span: Span) -> (r: NativeResult)
    ensures
        plain_model(r) == encode_spec(values_view(args@), "encode_be"@, false),
        !(r matches Ok(Err(_))),
        r matches Err(e) ==> e.span == span,
        final(heap)@ == old(heap)@,
{
    encode_native(args, "encode_be", false, span)
}

/// `std/utf16.decode_le`.
pub fn utf16_decode_le(heap: &mut Heap, args: &[Value], span: Span) -> (r: NativeResult)
    ensures
        plain_model(r) == decode_spec(values_view(args@), "decode_le"@, true),
        !(r matches Ok(Err(_))),
        r matches Err(e) ==> e.span == span,
        final(heap)@ == old(heap)@,
{
    decode_native(args, "decode_le", true, span)
}

/// `std/utf16.decode_be`.
pub fn utf16_decode_be(heap: &mut Heap, args: &[Value], span: Span) -> (r: NativeResult)
    ensures
        plain_model(r) == decode_spec(values_view(args@), "decode_be"@, false),
        !(r matches Ok(Err(_))),
        r matches Err(e) ==> e.span == span,
        final(heap)@ == old(heap)@,
{
    decode_native(args, "decode_be", false, span)
}

} // verus!
