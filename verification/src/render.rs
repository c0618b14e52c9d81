//! The canonical textual rendering of values, as shown by `inspect` and in diagnostics.
use vstd::prelude::*;
use crate::heap::{Heap, HeapV};
use crate::text::{byte_hex, int_decimal, push_byte_hex, push_char, push_i64_decimal, push_str};
use crate::value::{values_view, entries_view, MapKey, MapKeyV, Value, ValueV};

verus! {

/// A container on the path from the rendered root to the value being rendered.
#[derive(Clone, Copy, Debug, PartialEq, Eq, Structural)]
pub enum Node {
    List(usize),
    Table(usize),
}

/// Number of containers in a heap; bounds the depth of a rendering.
pub open spec fn container_count(h: HeapV) -> int {
    (h.lists.len() + h.maps.len()) as int
}

/// The character sequence that stands for one character inside a quoted string.
pub open spec fn escape_char(c: char) -> Seq<char> {
    if c == '\\' {
        seq!['\\', '\\']
    } else if c == '"' {
        seq!['\\', '"']
    } else if c == '\n' {
        seq!['\\', 'n']
    } else if c == '\r' {
        seq!['\\', 'r']
    } else if c == '\t' {
        seq!['\\', 't']
    } else {
        seq![c]
    }
}

/// A string body with backslash, quote, newline, carriage return and tab escaped.
pub open spec fn escape(s: Seq<char>) -> Seq<char>
    decreases s.len(),
{
    if s.len() == 0 {
        Seq::empty()
    } else {
        escape(s.drop_last()) + escape_char(s.last())
    }
}

/// A string as a quoted literal.
pub open spec fn quote(s: Seq<char>) -> Seq<char> {
    seq!['"'] + escape(s) + seq!['"']
}

/// Bytes as two-digit lower-case hexadecimal numbers separated by single spaces.
pub open spec fn hex_list(b: Seq<u8>) -> Seq<char>
    decreases b.len(),
{
    if b.len() == 0 {
        Seq::empty()
    } else if b.len() == 1 {
        byte_hex(b[0])
    } else {
        hex_list(b.drop_last()) + seq![' '] + byte_hex(b.last())
    }
}

/// Whether `s` is spelled like an identifier: a letter or `_`, then letters, digits or `_`.
pub open spec fn is_identifier(s: Seq<char>) -> bool {
    &&& s.len() > 0
    &&& ('a' <= s[0] <= 'z' || 'A' <= s[0] <= 'Z' || s[0] == '_')
    &&& forall|i: int|
        1 <= i < s.len() ==> ('a' <= #[trigger] s[i] <= 'z' || 'A' <= s[i] <= 'Z' || '0' <= s[i]
            <= '9' || s[i] == '_')
}

/// Rendering of a value in heap `h`; `path` holds the containers being rendered around it, and a
/// container met again on that path is shown as `[...]` or `{...}`.
pub open spec fn render_value(h: HeapV, v: ValueV, path: Seq<Node>) -> Seq<char>
    decreases container_count(h) - path.len(), 0nat,
{
    match v {
        ValueV::Nil => "nil"@,
        ValueV::Bool(b) => if b { "true"@ } else { "false"@ },
        ValueV::Int(n) => int_decimal(n as int),
        ValueV::Float(_, text) => text,
        ValueV::String(s) => quote(s),
        ValueV::Bytes(b) => "bytes["@ + hex_list(b) + "]"@,
        ValueV::NativeFunction(name, _, _) => "<function "@ + name + ">"@,
        ValueV::List(id) => {
            if !h.has_list(id) {
                "<missing list>"@
            } else if path.contains(Node::List(id)) || path.len() >= container_count(h) {
                "[...]"@
            } else {
                "["@ + render_items(h, h.lists[id as int], path.push(Node::List(id))) + "]"@
            }
        },
        ValueV::Table(id) => {
            if !h.has_map(id) {
                "<missing map>"@
            } else if path.contains(Node::Table(id)) || path.len() >= container_count(h) {
                "{...}"@
            } else {
                "{"@ + render_entries(h, h.maps[id as int], path.push(Node::Table(id))) + "}"@
            }
        },
    }
}

/// List elements rendered and separated by `, `.
pub open spec fn render_items(h: HeapV, items: Seq<ValueV>, path: Seq<Node>) -> Seq<char>
    decreases container_count(h) - path.len(), items.len(),
{
    if items.len() == 0 {
        Seq::empty()
    } else if items.len() == 1 {
        render_value(h, items[0], path)
    } else {
        render_items(h, items.drop_last(), path) + ", "@ + render_value(h, items.last(), path)
    }
}

/// A map key as written before `=`: bare when spelled like an identifier, otherwise bracketed.
pub open spec fn render_key(h: HeapV, k: MapKeyV, path: Seq<Node>) -> Seq<char>
    decreases container_count(h) - path.len(), 0nat,
{
    match k {
        MapKeyV::String(s) => if is_identifier(s) {
            s
        } else {
            "["@ + quote(s) + "]"@
        },
        MapKeyV::Int(n) => "["@ + int_decimal(n as int) + "]"@,
        MapKeyV::Float(_, text) => "["@ + text + "]"@,
        MapKeyV::Bool(b) => "["@ + (if b { "true"@ } else { "false"@ }) + "]"@,
    }
}

/// Map entries rendered as `key=value` and separated by `, `.
pub open spec fn render_entries(h: HeapV, entries: Seq<(MapKeyV, ValueV)>, path: Seq<Node>) -> Seq<
    char,
>
    decreases container_count(h) - path.len(), entries.len(),
{
    if entries.len() == 0 {
        Seq::empty()
    } else if entries.len() == 1 {
        render_key(h, entries[0].0, path) + "="@ + render_value(h, entries[0].1, path)
    } else {
        render_entries(h, entries.drop_last(), path) + ", "@ + render_key(
            h,
            entries.last().0,
            path,
        ) + "="@ + render_value(h, entries.last().1, path)
    }
}

/// The rendering of a value at the top level.
pub open spec fn render(h: HeapV, v: ValueV) -> Seq<char> {
    render_value(h, v, Seq::empty())
}

fn push_escaped(out: &mut String, s: &String)
    ensures
        final(out)@ == old(out)@ + escape(s@),
{
    let chars = crate::text::chars_of(s.as_str());
    let mut i: usize = 0;
    while i < chars.len()
        invariant
            i <= chars@.len(),
            chars@ == s@,
            out@ == old(out)@ + escape(chars@.take(i as int)),
        decreases chars@.len() - i,
    {
        let c = chars[i];
        if c == '\\' || c == '"' || c == '\n' || c == '\r' || c == '\t' {
            push_char(out, '\\');
            let e = if c == '\n' {
                'n'
            } else if c == '\r' {
                'r'
            } else if c == '\t' {
                't'
            } else {
                c
            };
            push_char(out, e);
        } else {
            push_char(out, c);
        }
        proof {
            assert(escape_char(c) =~= if c == '\\' || c == '"' || c == '\n' || c == '\r' || c == '\t' {
                seq!['\\', if c == '\n' { 'n' } else if c == '\r' { 'r' } else if c == '\t' { 't' } else { c }]
            } else {
                seq![c]
            });
        }
        i = i + 1;
        assert(chars@.take(i as int).drop_last() =~= chars@.take(i - 1));
    }
    assert(chars@.take(i as int) =~= chars@);
}


fn path_contains(path: &Vec<Node>, node: Node) -> (b: bool)
    ensures
        b == path@.contains(node),
{
    let mut i: usize = 0;
    while i < path.len()
        invariant
            i <= path@.len(),
            forall|j: int| 0 <= j < i ==> path@[j] != node,
        decreases path@.len() - i,
    {
        if path[i] == node {
            assert(path@[i as int] == node);
            return true;
        }
        i = i + 1;
    }
    false
}

/// Whether the path already spans as many containers as the heap holds.
fn path_is_full(heap: &Heap, path: &Vec<Node>) -> (b: bool)
    ensures
        b == (path@.len() >= container_count(heap@)),
{
    let lists = heap.list_count();
    let maps = heap.map_count();
    path.len() >= lists && path.len() - lists >= maps
}

fn push_hex_list(out: &mut String, bytes: &[u8])
    ensures
        final(out)@ == old(out)@ + hex_list(bytes@),
{
    let mut i: usize = 0;
    while i < bytes.len()
        invariant
            i <= bytes@.len(),
            out@ == old(out)@ + hex_list(bytes@.take(i as int)),
        decreases bytes@.len() - i,
    {
        if i > 0 {
            push_char(out, ' ');
        }
        push_byte_hex(out, bytes[i]);
        i = i + 1;
        proof {
            let t = bytes@.take(i as int);
            assert(t.drop_last() =~= bytes@.take(i - 1));
            if i == 1 {
                assert(hex_list(t) == byte_hex(t[0]));
            }
        }
    }
    assert(bytes@.take(i as int) =~= bytes@);
}

fn is_identifier_text(s: &String) -> (b: bool)
    ensures
        b == is_identifier(s@),
{
    let chars = crate::text::chars_of(s.as_str());
    if chars.len() == 0 {
        return false;
    }
    let first = chars[0];
    if !(('a' <= first && first <= 'z') || ('A' <= first && first <= 'Z') || first == '_') {
        return false;
    }
    let mut i: usize = 1;
    while i < chars.len()
        invariant
            1 <= i <= chars@.len(),
            chars@ == s@,
            forall|j: int|
                1 <= j < i ==> ('a' <= #[trigger] chars@[j] <= 'z' || 'A' <= chars@[j] <= 'Z' || '0'
                    <= chars@[j] <= '9' || chars@[j] == '_'),
        decreases chars@.len() - i,
    {
        let c = chars[i];
        if !(('a' <= c && c <= 'z') || ('A' <= c && c <= 'Z') || ('0' <= c && c <= '9') || c
            == '_') {
            return false;
        }
        i = i + 1;
    }
    true
}

fn push_bool(out: &mut String, b: bool)
    ensures
        final(out)@ == old(out)@ + (if b { "true"@ } else { "false"@ }),
{
    if b {
        push_str(out, "true");
    } else {
        push_str(out, "false");
    }
}

fn push_key(heap: &Heap, key: &MapKey, path: &Vec<Node>, out: &mut String)
    ensures
        final(out)@ == old(out)@ + render_key(heap@, key@, path@),
{
    match key {
        MapKey::String(s) => {
            if is_identifier_text(s) {
                push_str(out, s.as_str());
            } else {
                push_str(out, "[");
                push_char(out, '"');
                push_escaped(out, s);
                push_char(out, '"');
                push_str(out, "]");
            }
        },
        MapKey::Int(n) => {
            push_str(out, "[");
            push_i64_decimal(out, *n);
            push_str(out, "]");
        },
        MapKey::Float(f) => {
            push_str(out, "[");
            push_str(out, f.repr().text.as_str());
            push_str(out, "]");
        },
        MapKey::Bool(b) => {
            push_str(out, "[");
            push_bool(out, *b);
            push_str(out, "]");
        },
    }
    proof {
        assert(seq!['"'] + escape(key@->String_0) + seq!['"'] == quote(key@->String_0)) by {
            if key@ is String {
            }
        }
    }
}

fn render_value_into(heap: &Heap, v: &Value, path: &mut Vec<Node>, out: &mut String)
    ensures
        final(out)@ == old(out)@ + render_value(heap@, v@, old(path)@),
        final(path)@ == old(path)@,
    decreases container_count(heap@) - old(path)@.len(), 0nat,
{
    match v {
        Value::Nil => push_str(out, "nil"),
        Value::Bool(b) => push_bool(out, *b),
        Value::Int(n) => push_i64_decimal(out, *n),
        Value::Float(f) => push_str(out, f.text.as_str()),
        Value::String(s) => {
            push_char(out, '"');
            push_escaped(out, s);
            push_char(out, '"');
        },
        Value::Bytes(b) => {
            push_str(out, "bytes[");
            push_hex_list(out, b.as_slice());
            push_str(out, "]");
        },
        Value::NativeFunction(f) => {
            push_str(out, "<function ");
            push_str(out, f.name.as_str());
            push_str(out, ">");
        },
        Value::List(r) => {
            if !heap.has_list(*r) {
                push_str(out, "<missing list>");
            } else if path_contains(path, Node::List(r.id)) || path_is_full(heap, path) {
                push_str(out, "[...]");
            } else {
                push_str(out, "[");
                path.push(Node::List(r.id));
                render_items_into(heap, heap.list_values(*r), path, out);
                path.pop();
                push_str(out, "]");
                proof {
                    assert(path@ =~= old(path)@);
                }
            }
        },
        Value::Table(r) => {
            if !heap.has_map(*r) {
                push_str(out, "<missing map>");
            } else if path_contains(path, Node::Table(r.id)) || path_is_full(heap, path) {
                push_str(out, "{...}");
            } else {
                push_str(out, "{");
                path.push(Node::Table(r.id));
                render_entries_into(heap, heap.map_entries(*r), path, out);
                path.pop();
                push_str(out, "}");
                proof {
                    assert(path@ =~= old(path)@);
                }
            }
        },
    }
}

fn render_items_into(heap: &Heap, items: &Vec<Value>, path: &mut Vec<Node>, out: &mut String)
    requires
        old(path)@.len() <= container_count(heap@),
    ensures
        final(out)@ == old(out)@ + render_items(heap@, values_view(items@), old(path)@),
        final(path)@ == old(path)@,
    decreases container_count(heap@) - old(path)@.len(), 1nat,
{
    let ghost view = values_view(items@);
    let mut i: usize = 0;
    while i < items.len()
        invariant
            i <= items@.len(),
            view == values_view(items@),
            path@ == old(path)@,
            path@.len() <= container_count(heap@),
            out@ == old(out)@ + render_items(heap@, view.take(i as int), path@),
        decreases items@.len() - i,
    {
        if i > 0 {
            push_str(out, ", ");
        }
        render_value_into(heap, &items[i], path, out);
        i = i + 1;
        proof {
            let t = view.take(i as int);
            assert(t.drop_last() =~= view.take(i - 1));
            assert(t.last() == items@[i - 1]@);
            if i == 1 {
                assert(render_items(heap@, t, path@) == render_value(heap@, t[0], path@));
            }
        }
    }
    assert(view.take(i as int) =~= view);
}

fn render_entries_into(
    heap: &Heap,
    entries: &Vec<(MapKey, Value)>,
    path: &mut Vec<Node>,
    out: &mut String,
)
    requires
        old(path)@.len() <= container_count(heap@),
    ensures
        final(out)@ == old(out)@ + render_entries(heap@, entries_view(entries@), old(path)@),
        final(path)@ == old(path)@,
    decreases container_count(heap@) - old(path)@.len(), 1nat,
{
    let ghost view = entries_view(entries@);
    let mut i: usize = 0;
    while i < entries.len()
        invariant
            i <= entries@.len(),
            view == entries_view(entries@),
            path@ == old(path)@,
            path@.len() <= container_count(heap@),
            out@ == old(out)@ + render_entries(heap@, view.take(i as int), path@),
        decreases entries@.len() - i,
    {
        if i > 0 {
            push_str(out, ", ");
        }
        let entry = &entries[i];
        push_key(heap, &entry.0, path, out);
        push_str(out, "=");
        render_value_into(heap, &entry.1, path, out);
        i = i + 1;
        proof {
            let t = view.take(i as int);
            assert(t.drop_last() =~= view.take(i - 1));
            assert(t.last() == (entries@[i - 1].0@, entries@[i - 1].1@));
        }
    }
    assert(view.take(i as int) =~= view);
}

impl Value {
    /// The canonical rendering of this value, resolving lists and maps in `heap`.
    pub fn render(&self, heap: &Heap) -> (text: String)
        ensures
            text@ == render(heap@, self@),
    {
        let mut out = String::new();
        let mut path: Vec<Node> = Vec::new();
        proof {
            assert(path@ =~= Seq::<Node>::empty());
        }
        render_value_into(heap, self, &mut path, &mut out);
        assert(out@ =~= render(heap@, self@));
        out
    }
}

} // verus!
