//! `std/io`: what the stream natives compute around their reads and writes.
use vstd::prelude::*;
use crate::error::{RuntimeError, RuntimeResult};
use crate::span::Span;
use crate::text::{push_char, push_str};
use crate::value::{Value, ValueV};
use crate::native::support::{argument_error, category_message};

verus! {

/// The text an output operation writes: the string, with a line feed for the `ln` forms; any
/// other value is a hard error.
pub open spec fn output_spec(v: ValueV, newline: bool, operation: Seq<char>) -> Result<Seq<char>, Seq<char>> {
    match v {
        ValueV::String(s) => Ok(if newline { s.push('\n') } else { s }),
        w => Err(category_message("std/io"@, operation, " "@ + "value"@ + " must be a string, got "@, w)),
    }
}

/// The text `print`, `println`, `eprint` or `eprintln` writes for a value.
pub fn output_text(value: &Value, newline: bool, operation: &str, span: Span) -> (r: RuntimeResult<String>)
    ensures
        r matches Ok(t) ==> output_spec(value@, newline, operation@) == Ok::<Seq<char>, Seq<char>>(t@),
        r matches Err(e) ==> output_spec(value@, newline, operation@) == Err::<Seq<char>, Seq<char>>(e.message@)
            && e.span == span,
        r is Ok <==> value is String,
{
    match value {
        Value::String(s) => {
            let mut text = String::new();
            push_str(&mut text, s.as_str());
            if newline {
                push_char(&mut text, '\n');
            }
            Ok(text)
        },
        other => Err(argument_error("std/io", operation, "value", " must be a string, got ", other, span)),
    }
}

/// The line `read_line` returns for the text read: without one trailing line feed and, before
/// it, one carriage return; `None` at the end of input (nothing read).
pub open spec fn line_spec(text: Seq<char>) -> Option<Seq<char>> {
    if text.len() == 0 {
        None
    } else if text.last() == '\n' {
        let without = text.drop_last();
        if without.len() > 0 && without.last() == '\r' { Some(without.drop_last()) } else { Some(without) }
    } else {
        Some(text)
    }
}

/// The value `read_line` returns for the text read: `nil` at the end of input, else the line.
pub fn line_value(text: &str) -> (v: Value)
    ensures
        v@ == match line_spec(text@) {
            None => ValueV::Nil,
            Some(line) => ValueV::String(line),
        },
{
    let chars = crate::text::chars_of(text);
    let n = chars.len();
    if n == 0 {
        return Value::Nil;
    }
    let mut end = n;
    if chars[n - 1] == '\n' {
        end = n - 1;
        if end > 0 && chars[end - 1] == '\r' {
            end = end - 1;
        }
    }
    let mut line = String::new();
    let mut i: usize = 0;
    while i < end
        invariant
            i <= end <= n,
            n == chars@.len(),
            chars@ == text@,
            line@ == text@.subrange(0, i as int),
        decreases end - i,
    {
        push_char(&mut line, chars[i]);
        i = i + 1;
    }
    proof {
        assert(text@.drop_last() =~= text@.subrange(0, n - 1));
        if n >= 2 {
            assert(text@.drop_last().drop_last() =~= text@.subrange(0, n - 2));
        }
        assert(text@.subrange(0, n as int) =~= text@);
    }
    Value::String(line)
}

} // verus!
