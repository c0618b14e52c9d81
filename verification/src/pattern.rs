//! Patterns and matching a value against one. A match yields the bindings of the names in the
//! pattern, in order; a failed match yields none, not even of the parts that matched. A rest
//! pattern binds a new container: the elements after the matched ones, or the entries whose keys
//! no field names.
use vstd::prelude::*;
use crate::error::RuntimeError;
use crate::heap::{Heap, HeapV};
use crate::indexing::entry_position;
use crate::keys::{numbers_equal, numeric_equal};
use crate::native::list::copy_values;
use crate::native::map::copy_entries;
use crate::span::Span;
use crate::text::str_equal;
use crate::value::{entries_view, values_view, FloatRepr, MapKey, MapKeyV, Value, ValueV};

verus! {

/// A pattern and where it is in the source.
#[derive(Debug)]
pub struct Pattern {
    pub kind: PatternKind,
    pub span: Span,
}

/// The shapes of patterns.
#[derive(Debug)]
pub enum PatternKind {
    Wildcard,
    Binding(String),
    Int(i64),
    Float(FloatRepr),
    String(String),
    Bool(bool),
    Nil,
    List { elements: Vec<Pattern>, rest: Option<PatternRest> },
    Table { fields: Vec<(String, Pattern)>, rest: Option<PatternRest> },
}

/// What a rest pattern does with the remaining elements or entries.
#[derive(Debug)]
pub enum PatternRest {
    Discard,
    Binding(String),
}

/// The outcome of a match: the bindings when it matches, `None` when it does not, or a
/// diagnostic and the span of the pattern it is about.
pub type MatchV = Result<Option<Seq<(Seq<char>, ValueV)>>, (Span, Seq<char>)>;

/// Whether a literal pattern matches a value. Numbers compare by value across integers and
/// floats.
pub open spec fn literal_matches(kind: PatternKind, v: ValueV) -> bool {
    match kind {
        PatternKind::Int(n) => numeric_equal(ValueV::Int(n), v) == Some(true),
        PatternKind::Float(f) => numeric_equal(ValueV::Float(f.bits, f.text@), v) == Some(true),
        PatternKind::String(s) => v == ValueV::String(s@),
        PatternKind::Bool(b) => v == ValueV::Bool(b),
        PatternKind::Nil => v is Nil,
        _ => false,
    }
}

/// The values a map pattern's fields match against: each field's entry, or `nil` for a missing
/// entry whose pattern is `nil`; `None` when another field has no entry.
pub open spec fn field_values(
    fields: Seq<(String, Pattern)>,
    entries: Seq<(MapKeyV, ValueV)>,
    k: nat,
) -> Option<Seq<ValueV>>
    decreases fields.len() - k,
{
    if k >= fields.len() {
        Some(Seq::empty())
    } else {
        let here = match entry_position(entries, MapKeyV::String(fields[k as int].0@), 0) {
            Some(p) => Some(entries[p as int].1),
            None => if fields[k as int].1.kind is Nil {
                Some(ValueV::Nil)
            } else {
                None
            },
        };
        match (here, field_values(fields, entries, k + 1)) {
            (Some(x), Some(rest)) => Some(seq![x] + rest),
            _ => None,
        }
    }
}

/// The values for the fields from `k` on are one per field.
proof fn lemma_field_values_len(fields: Seq<(String, Pattern)>, entries: Seq<(MapKeyV, ValueV)>, k: nat)
    ensures
        field_values(fields, entries, k) matches Some(vs) ==> k <= fields.len() ==> vs.len() == fields.len() - k,
    decreases fields.len() - k,
{
    if k < fields.len() {
        lemma_field_values_len(fields, entries, k + 1);
    }
}

/// Whether some field of a map pattern has the name `name`.
pub open spec fn names_field(fields: Seq<(String, Pattern)>, name: Seq<char>) -> bool {
    exists|i: int| 0 <= i < fields.len() && #[trigger] fields[i].0@ == name
}

/// Whether a rest pattern keeps an entry: its key is not the name of a field.
pub open spec fn kept_by_rest(fields: Seq<(String, Pattern)>, key: MapKeyV) -> bool {
    !(key matches MapKeyV::String(s) && names_field(fields, s))
}

/// The entries a map rest pattern binds, in order.
pub open spec fn rest_entries(entries: Seq<(MapKeyV, ValueV)>, fields: Seq<(String, Pattern)>) -> Seq<(MapKeyV, ValueV)>
    decreases entries.len(),
{
    if entries.len() == 0 {
        Seq::empty()
    } else if kept_by_rest(fields, entries.last().0) {
        rest_entries(entries.drop_last(), fields).push(entries.last())
    } else {
        rest_entries(entries.drop_last(), fields)
    }
}

/// Matching `v` against `p`: the outcome, and the heap after the rest containers were made.
pub open spec fn match_spec(p: Pattern, v: ValueV, h: HeapV) -> (MatchV, HeapV)
    decreases p, 0nat,
{
    match p.kind {
        PatternKind::Wildcard => (Ok(Some(Seq::empty())), h),
        PatternKind::Binding(name) => (Ok(Some(seq![(name@, v)])), h),
        PatternKind::List { elements, rest } => match v {
            ValueV::List(id) => if !h.has_list(id) {
                (Err((p.span, "could not borrow list for pattern matching"@)), h)
            } else {
                let vs = h.lists[id as int];
                let n = elements@.len();
                if (rest is Some && vs.len() < n) || (rest is None && vs.len() != n) {
                    (Ok(None), h)
                } else {
                    let (r, h1) = match_elements(elements@, vs, h, 0);
                    match (r, rest) {
                        (Ok(Some(b)), Some(PatternRest::Binding(name))) => (
                            Ok(Some(b.push((name@, ValueV::List(h1.lists.len() as usize))))),
                            HeapV { lists: h1.lists.push(vs.skip(n as int)), maps: h1.maps },
                        ),
                        _ => (r, h1),
                    }
                }
            },
            _ => (Ok(None), h),
        },
        PatternKind::Table { fields, rest } => match v {
            ValueV::Table(id) => if !h.has_map(id) {
                (Err((p.span, "could not borrow table for pattern matching"@)), h)
            } else {
                let entries = h.maps[id as int];
                match field_values(fields@, entries, 0) {
                    None => (Ok(None), h),
                    Some(vs) => {
                        let binds_rest = rest matches Some(PatternRest::Binding(_));
                        let h1 = if binds_rest {
                            HeapV { lists: h.lists, maps: h.maps.push(rest_entries(entries, fields@)) }
                        } else {
                            h
                        };
                        let (r, h2) = match_fields(fields@, vs, h1, 0);
                        match (r, rest) {
                            (Ok(Some(b)), Some(PatternRest::Binding(name))) => (
                                Ok(Some(b.push((name@, ValueV::Table(h.maps.len() as usize))))),
                                h2,
                            ),
                            _ => (r, h2),
                        }
                    },
                }
            },
            _ => (Ok(None), h),
        },
        _ => (Ok(if literal_matches(p.kind, v) { Some(Seq::empty()) } else { None }), h),
    }
}

/// Matching the values `vs` against the element patterns from `k` on, in order.
pub open spec fn match_elements(ps: Seq<Pattern>, vs: Seq<ValueV>, h: HeapV, k: nat) -> (MatchV, HeapV)
    decreases ps, ps.len() - k,
{
    if k >= ps.len() {
        (Ok(Some(Seq::empty())), h)
    } else {
        let (r, h1) = match_spec(ps[k as int], vs[k as int], h);
        match r {
            Ok(Some(b)) => {
                let (r2, h2) = match_elements(ps, vs, h1, k + 1);
                match r2 {
                    Ok(Some(b2)) => (Ok(Some(b + b2)), h2),
                    _ => (r2, h2),
                }
            },
            _ => (r, h1),
        }
    }
}

/// Matching the values `vs` against the field patterns from `k` on, in order.
pub open spec fn match_fields(fs: Seq<(String, Pattern)>, vs: Seq<ValueV>, h: HeapV, k: nat) -> (MatchV, HeapV)
    decreases fs, fs.len() - k,
{
    if k >= fs.len() {
        (Ok(Some(Seq::empty())), h)
    } else {
        let (r, h1) = match_spec(fs[k as int].1, vs[k as int], h);
        match r {
            Ok(Some(b)) => {
                let (r2, h2) = match_fields(fs, vs, h1, k + 1);
                match r2 {
                    Ok(Some(b2)) => (Ok(Some(b + b2)), h2),
                    _ => (r2, h2),
                }
            },
            _ => (r, h1),
        }
    }
}

/// Whether `h2` holds every container of `h` unchanged, and perhaps more.
pub open spec fn extends(h: HeapV, h2: HeapV) -> bool {
    &&& h.lists.len() <= h2.lists.len()
    &&& h.maps.len() <= h2.maps.len()
    &&& forall|i: int| 0 <= i < h.lists.len() ==> #[trigger] h2.lists[i] == h.lists[i]
    &&& forall|i: int| 0 <= i < h.maps.len() ==> #[trigger] h2.maps[i] == h.maps[i]
}

/// Extending is transitive.
proof fn lemma_extends_trans(h: HeapV, h1: HeapV, h2: HeapV)
    requires
        extends(h, h1),
        extends(h1, h2),
    ensures
        extends(h, h2),
{
    assert forall|i: int| 0 <= i < h.lists.len() implies #[trigger] h2.lists[i] == h.lists[i] by {
        assert(h2.lists[i] == h1.lists[i]);
    }
    assert forall|i: int| 0 <= i < h.maps.len() implies #[trigger] h2.maps[i] == h.maps[i] by {
        assert(h2.maps[i] == h1.maps[i]);
    }
}

/// Matching never changes a container that exists: it only adds the containers that rest
/// patterns bind.
pub proof fn lemma_match_keeps_containers(p: Pattern, v: ValueV, h: HeapV)
    ensures
        extends(h, match_spec(p, v, h).1),
    decreases p, 0nat,
{
    match p.kind {
        PatternKind::List { elements, rest } => match v {
            ValueV::List(id) => if h.has_list(id) {
                let vs = h.lists[id as int];
                let n = elements@.len();
                if !((rest is Some && vs.len() < n) || (rest is None && vs.len() != n)) {
                    lemma_elements_keep_containers(elements@, vs, h, 0);
                    let h1 = match_elements(elements@, vs, h, 0).1;
                    let h2 = HeapV { lists: h1.lists.push(vs.skip(n as int)), maps: h1.maps };
                    assert(extends(h1, h2));
                    lemma_extends_trans(h, h1, h2);
                }
            },
            _ => {},
        },
        PatternKind::Table { fields, rest } => match v {
            ValueV::Table(id) => if h.has_map(id) {
                let entries = h.maps[id as int];
                match field_values(fields@, entries, 0) {
                    Some(vs) => {
                        let h1 = if rest matches Some(PatternRest::Binding(_)) {
                            HeapV { lists: h.lists, maps: h.maps.push(rest_entries(entries, fields@)) }
                        } else {
                            h
                        };
                        assert(extends(h, h1));
                        lemma_fields_keep_containers(fields@, vs, h1, 0);
                        lemma_extends_trans(h, h1, match_fields(fields@, vs, h1, 0).1);
                    },
                    None => {},
                }
            },
            _ => {},
        },
        _ => {},
    }
}

/// Matching elements never changes a container that exists.
pub proof fn lemma_elements_keep_containers(ps: Seq<Pattern>, vs: Seq<ValueV>, h: HeapV, k: nat)
    ensures
        extends(h, match_elements(ps, vs, h, k).1),
    decreases ps, ps.len() - k,
{
    if k < ps.len() {
        lemma_match_keeps_containers(ps[k as int], vs[k as int], h);
        let (r, h1) = match_spec(ps[k as int], vs[k as int], h);
        if r matches Ok(Some(_)) {
            lemma_elements_keep_containers(ps, vs, h1, k + 1);
            lemma_extends_trans(h, h1, match_elements(ps, vs, h1, k + 1).1);
        }
    }
}

/// Matching fields never changes a container that exists.
pub proof fn lemma_fields_keep_containers(fs: Seq<(String, Pattern)>, vs: Seq<ValueV>, h: HeapV, k: nat)
    ensures
        extends(h, match_fields(fs, vs, h, k).1),
    decreases fs, fs.len() - k,
{
    if k < fs.len() {
        lemma_match_keeps_containers(fs[k as int].1, vs[k as int], h);
        let (r, h1) = match_spec(fs[k as int].1, vs[k as int], h);
        if r matches Ok(Some(_)) {
            lemma_fields_keep_containers(fs, vs, h1, k + 1);
            lemma_extends_trans(h, h1, match_fields(fs, vs, h1, k + 1).1);
        }
    }
}

/// The models of bindings.
pub open spec fn bindings_view(b: Seq<(String, Value)>) -> Seq<(Seq<char>, ValueV)> {
    b.map_values(|p: (String, Value)| (p.0@, p.1@))
}

/// The model of a match result.
pub open spec fn match_model(r: Result<Option<Vec<(String, Value)>>, RuntimeError>) -> MatchV {
    match r {
        Ok(Some(b)) => Ok(Some(bindings_view(b@))),
        Ok(None) => Ok(None),
        Err(e) => Err((e.span, e.message@)),
    }
}

/// Appends bindings.
fn append_bindings(b: &mut Vec<(String, Value)>, more: Vec<(String, Value)>)
    ensures
        bindings_view(final(b)@) == bindings_view(old(b)@) + bindings_view(more@),
{
    let mut more = more;
    let ghost before = bindings_view(b@);
    let ghost tail = bindings_view(more@);
    b.append(&mut more);
    proof {
        assert(bindings_view(b@) =~= before + tail);
    }
}

/// Whether some field is named `name`.
fn has_field_named(fields: &Vec<(String, Pattern)>, name: &String) -> (r: bool)
    ensures
        r == names_field(fields@, name@),
{
    let mut i: usize = 0;
    while i < fields.len()
        invariant
            i <= fields@.len(),
            forall|j: int| 0 <= j < i ==> #[trigger] fields@[j].0@ != name@,
        decreases fields@.len() - i,
    {
        if str_equal(fields[i].0.as_str(), name.as_str()) {
            assert(fields@[i as int].0@ == name@);
            return true;
        }
        i = i + 1;
    }
    false
}

/// The entries a map rest pattern binds.
fn remaining_entries(entries: &Vec<(MapKey, Value)>, fields: &Vec<(String, Pattern)>) -> (out: Vec<(MapKey, Value)>)
    ensures
        entries_view(out@) == rest_entries(entries_view(entries@), fields@),
{
    let ghost view = entries_view(entries@);
    let mut out: Vec<(MapKey, Value)> = Vec::new();
    let mut i: usize = 0;
    assert(view.take(0) =~= Seq::<(MapKeyV, ValueV)>::empty());
    while i < entries.len()
        invariant
            i <= entries@.len() == view.len(),
            view == entries_view(entries@),
            entries_view(out@) == rest_entries(view.take(i as int), fields@),
        decreases entries@.len() - i,
    {
        let ghost before = entries_view(out@);
        assert(view.take(i + 1).drop_last() =~= view.take(i as int));
        assert(view.take(i + 1).last() == view[i as int]);
        assert(view[i as int] == (entries@[i as int].0@, entries@[i as int].1@));
        let kept = match &entries[i].0 {
            MapKey::String(s) => !has_field_named(fields, s),
            _ => true,
        };
        if kept {
            out.push((entries[i].0.copy(), entries[i].1.copy()));
            proof {
                assert(entries_view(out@) =~= before.push(view[i as int]));
            }
        }
        i = i + 1;
    }
    assert(view.take(i as int) =~= view);
    out
}

/// The values the fields of a map pattern match against, if every field has one.
fn collect_field_values(fields: &Vec<(String, Pattern)>, entries: &Vec<(MapKey, Value)>) -> (r: Option<Vec<Value>>)
    ensures
        match field_values(fields@, entries_view(entries@), 0) {
            Some(vs) => r is Some && values_view(r->Some_0@) == vs,
            None => r is None,
        },
{
    let ghost view = entries_view(entries@);
    let mut out: Vec<Value> = Vec::new();
    let mut i: usize = 0;
    while i < fields.len()
        invariant
            i <= fields@.len(),
            view == entries_view(entries@),
            field_values(fields@, view, 0) == match field_values(fields@, view, i as nat) {
                Some(rest) => Some(values_view(out@) + rest),
                None => None::<Seq<ValueV>>,
            },
        decreases fields@.len() - i,
    {
        let ghost before = values_view(out@);
        let key = MapKey::String(fields[i].0.clone());
        let here = match crate::indexing::find_entry(entries, &key) {
            Some(p) => {
                assert(view[p as int].1 == entries@[p as int].1@);
                entries[p].1.copy()
            },
            None => {
                if matches!(fields[i].1.kind, PatternKind::Nil) {
                    Value::Nil
                } else {
                    return None;
                }
            },
        };
        out.push(here);
        proof {
            assert(values_view(out@) =~= before.push(here@));
            match field_values(fields@, view, (i + 1) as nat) {
                Some(rest) => {
                    assert(before + (seq![here@] + rest) =~= values_view(out@) + rest);
                },
                None => {},
            }
        }
        i = i + 1;
    }
    proof {
        assert(values_view(out@) + Seq::<ValueV>::empty() =~= values_view(out@));
    }
    Some(out)
}

/// Matches `value` against `pattern`, giving the bindings on a match.
fn match_into(heap: &mut Heap, pattern: &Pattern, value: &Value) -> (r: Result<Option<Vec<(String, Value)>>, RuntimeError>)
    ensures
        (match_model(r), final(heap)@) == match_spec(*pattern, value@, old(heap)@),
    decreases *pattern, 0nat,
{
    proof {
        assert(bindings_view(Seq::<(String, Value)>::empty()) =~= Seq::<(Seq<char>, ValueV)>::empty());
    }
    match &pattern.kind {
        PatternKind::Wildcard => Ok(Some(Vec::new())),
        PatternKind::Binding(name) => {
            let mut b: Vec<(String, Value)> = Vec::new();
            b.push((name.clone(), value.copy()));
            proof {
                assert(bindings_view(b@) =~= seq![(name@, value@)]);
            }
            Ok(Some(b))
        },
        PatternKind::List { elements, rest } => {
            let list = match value {
                Value::List(l) => *l,
                _ => return Ok(None),
            };
            if !heap.has_list(list) {
                return Err(RuntimeError::new(pattern.span, "could not borrow list for pattern matching".to_string()));
            }
            let values = {
                let current = heap.list_values(list);
                copy_values(current, 0, current.len())
            };
            proof {
                assert(values_view(values@) =~= old(heap)@.lists[list.id as int]);
            }
            let n = elements.len();
            let too_short = match rest {
                Some(_) => values.len() < n,
                None => values.len() != n,
            };
            if too_short {
                return Ok(None);
            }
            let matched = match_elements_into(heap, elements, &values, 0);
            match matched {
                Ok(Some(b)) => match rest {
                    Some(PatternRest::Binding(name)) => {
                        let ghost h1 = heap@;
                        let suffix = copy_values(&values, n, values.len());
                        let rest_value = heap.list(suffix);
                        let mut b = b;
                        let ghost before = bindings_view(b@);
                        b.push((name.clone(), rest_value));
                        proof {
                            assert(bindings_view(b@) =~= before.push((name@, ValueV::List(h1.lists.len() as usize))));
                            assert(values_view(suffix@) =~= values_view(values@).skip(n as int));
                        }
                        Ok(Some(b))
                    },
                    _ => Ok(Some(b)),
                },
                other => other,
            }
        },
        PatternKind::Table { fields, rest } => {
            let map = match value {
                Value::Table(m) => *m,
                _ => return Ok(None),
            };
            if !heap.has_map(map) {
                return Err(RuntimeError::new(pattern.span, "could not borrow table for pattern matching".to_string()));
            }
            let entries = copy_entries(heap.map_entries(map));
            let field_vals = match collect_field_values(fields, &entries) {
                Some(vals) => vals,
                None => return Ok(None),
            };
            proof {
                lemma_field_values_len(fields@, entries_view(entries@), 0);
            }
            let ghost rest_id = heap@.maps.len();
            let rest_value = match rest {
                Some(PatternRest::Binding(_)) => Some(heap.map(remaining_entries(&entries, fields))),
                _ => None,
            };
            let matched = match_fields_into(heap, fields, &field_vals, 0);
            match matched {
                Ok(Some(b)) => match (rest, rest_value) {
                    (Some(PatternRest::Binding(name)), Some(r)) => {
                        let mut b = b;
                        let ghost before = bindings_view(b@);
                        b.push((name.clone(), r));
                        proof {
                            assert(bindings_view(b@) =~= before.push((name@, ValueV::Table(rest_id as usize))));
                        }
                        Ok(Some(b))
                    },
                    _ => Ok(Some(b)),
                },
                other => other,
            }
        },
        PatternKind::Int(n) => Ok(if numbers_equal(&Value::Int(*n), value) { Some(Vec::new()) } else { None }),
        PatternKind::Float(f) => Ok(if numbers_equal(&Value::Float(f.copy()), value) { Some(Vec::new()) } else { None }),
        PatternKind::String(expected) => Ok(
            match value {
                Value::String(actual) => if str_equal(actual.as_str(), expected.as_str()) { Some(Vec::new()) } else { None },
                _ => None,
            },
        ),
        PatternKind::Bool(expected) => Ok(
            match value {
                Value::Bool(actual) => if *actual == *expected { Some(Vec::new()) } else { None },
                _ => None,
            },
        ),
        PatternKind::Nil => Ok(if value.is_nil() { Some(Vec::new()) } else { None }),
    }
}

/// Matches values against element patterns from `k` on.
fn match_elements_into(heap: &mut Heap, ps: &Vec<Pattern>, vs: &Vec<Value>, k: usize) -> (r: Result<Option<Vec<(String, Value)>>, RuntimeError>)
    requires
        k <= ps@.len() <= vs@.len(),
    ensures
        (match_model(r), final(heap)@) == match_elements(ps@, values_view(vs@), old(heap)@, k as nat),
    decreases ps@, ps@.len() - k,
{
    if k >= ps.len() {
        proof {
            assert(bindings_view(Seq::<(String, Value)>::empty()) =~= Seq::<(Seq<char>, ValueV)>::empty());
        }
        return Ok(Some(Vec::new()));
    }
    assert(values_view(vs@)[k as int] == vs@[k as int]@);
    match match_into(heap, &ps[k], &vs[k]) {
        Ok(Some(b)) => match match_elements_into(heap, ps, vs, k + 1) {
            Ok(Some(more)) => {
                let mut b = b;
                append_bindings(&mut b, more);
                Ok(Some(b))
            },
            other => other,
        },
        other => other,
    }
}

/// Matches values against field patterns from `k` on.
fn match_fields_into(heap: &mut Heap, fs: &Vec<(String, Pattern)>, vs: &Vec<Value>, k: usize) -> (r: Result<Option<Vec<(String, Value)>>, RuntimeError>)
    requires
        k <= fs@.len() == vs@.len(),
    ensures
        (match_model(r), final(heap)@) == match_fields(fs@, values_view(vs@), old(heap)@, k as nat),
    decreases fs@, fs@.len() - k,
{
    if k >= fs.len() {
        proof {
            assert(bindings_view(Seq::<(String, Value)>::empty()) =~= Seq::<(Seq<char>, ValueV)>::empty());
        }
        return Ok(Some(Vec::new()));
    }
    assert(values_view(vs@)[k as int] == vs@[k as int]@);
    match match_into(heap, &fs[k].1, &vs[k]) {
        Ok(Some(b)) => match match_fields_into(heap, fs, vs, k + 1) {
            Ok(Some(more)) => {
                let mut b = b;
                append_bindings(&mut b, more);
                Ok(Some(b))
            },
            other => other,
        },
        other => other,
    }
}

/// Matches `value` against `pattern`. On a match the bindings of the pattern's names are
/// appended to `bindings`, in order; on a mismatch or a diagnostic `bindings` is unchanged. Rest
/// patterns that bind make new containers in `heap`.
pub fn match_pattern(heap: &mut Heap, pattern: &Pattern, value: &Value, bindings: &mut Vec<(String, Value)>) -> (r: Result<bool, RuntimeError>)
    ensures
        final(heap)@ == match_spec(*pattern, value@, old(heap)@).1,
        match match_spec(*pattern, value@, old(heap)@).0 {
            Ok(Some(b)) => r == Ok::<bool, RuntimeError>(true) && bindings_view(final(bindings)@)
                == bindings_view(old(bindings)@) + b,
            Ok(None) => r == Ok::<bool, RuntimeError>(false) && final(bindings)@ == old(bindings)@,
            Err((span, message)) => r is Err && r->Err_0.span == span && r->Err_0.message@ == message
                && final(bindings)@ == old(bindings)@,
        },
{
    match match_into(heap, pattern, value) {
        Ok(Some(found)) => {
            append_bindings(bindings, found);
            Ok(true)
        },
        Ok(None) => Ok(false),
        Err(error) => Err(error),
    }
}

/// A boolean literal pattern matches a value exactly when the value is that same boolean; a
/// match binds nothing, and matching never changes the heap.
pub proof fn lemma_bool_pattern_matches_its_value(b: bool, v: ValueV, span: Span, h: HeapV)
    ensures
        match_spec((Pattern { kind: PatternKind::Bool(b), span }), v, h) == (
            Ok::<Option<Seq<(Seq<char>, ValueV)>>, (Span, Seq<char>)>(
                if v == ValueV::Bool(b) { Some(Seq::empty()) } else { None },
            ),
            h,
        ),
        match_spec((Pattern { kind: PatternKind::Bool(b), span }), ValueV::Bool(b), h).0
            == Ok::<Option<Seq<(Seq<char>, ValueV)>>, (Span, Seq<char>)>(Some(Seq::empty())),
        match_spec((Pattern { kind: PatternKind::Bool(b), span }), ValueV::Bool(!b), h).0
            == Ok::<Option<Seq<(Seq<char>, ValueV)>>, (Span, Seq<char>)>(None),
{
}

/// Literal and name patterns: an integer pattern matches an integer exactly when they are the
/// same integer, a string pattern a string exactly when they hold the same characters, the `nil`
/// pattern exactly `nil`; `_` matches anything and binds nothing, and a name matches anything and
/// binds the value to the name. None of them changes the heap.
pub proof fn lemma_simple_patterns(n: i64, m: i64, s: String, t: Seq<char>, name: String, v: ValueV, span: Span, h: HeapV)
    ensures
        match_spec((Pattern { kind: PatternKind::Int(n), span }), ValueV::Int(m), h) == (
            Ok::<Option<Seq<(Seq<char>, ValueV)>>, (Span, Seq<char>)>(
                if n == m { Some(Seq::empty()) } else { None },
            ),
            h,
        ),
        match_spec((Pattern { kind: PatternKind::String(s), span }), ValueV::String(t), h) == (
            Ok::<Option<Seq<(Seq<char>, ValueV)>>, (Span, Seq<char>)>(
                if s@ == t { Some(Seq::empty()) } else { None },
            ),
            h,
        ),
        match_spec((Pattern { kind: PatternKind::Nil, span }), v, h) == (
            Ok::<Option<Seq<(Seq<char>, ValueV)>>, (Span, Seq<char>)>(
                if v is Nil { Some(Seq::empty()) } else { None },
            ),
            h,
        ),
        match_spec((Pattern { kind: PatternKind::Wildcard, span }), v, h) == (
            Ok::<Option<Seq<(Seq<char>, ValueV)>>, (Span, Seq<char>)>(Some(Seq::empty())),
            h,
        ),
        match_spec((Pattern { kind: PatternKind::Binding(name), span }), v, h) == (
            Ok::<Option<Seq<(Seq<char>, ValueV)>>, (Span, Seq<char>)>(Some(seq![(name@, v)])),
            h,
        ),
{
}

} // verus!
