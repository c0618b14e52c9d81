//! Host modules: named collections of exported values, either built directly from native
//! functions and values, or backed by Simi source that runs with a private host value.
use vstd::prelude::*;
use crate::heap::{Heap, HeapV};
use crate::text::{push_str, str_equal};
use crate::value::{entries_view, MapKey, MapKeyV, NativeFunction, Value, ValueV};

verus! {

/// The model of exported names and values, in order.
pub open spec fn exports_view(exports: Seq<(String, Value)>) -> Seq<(Seq<char>, ValueV)> {
    exports.map_values(|e: (String, Value)| (e.0@, e.1@))
}

/// The position of the first export named `name`, or `-1`.
pub open spec fn position_of(e: Seq<(Seq<char>, ValueV)>, name: Seq<char>) -> int
    decreases e.len(),
{
    if e.len() == 0 {
        -1
    } else if e[0].0 == name {
        0
    } else {
        let p = position_of(e.drop_first(), name);
        if p < 0 { -1 } else { p + 1 }
    }
}

/// No name is exported twice.
pub open spec fn distinct_names(e: Seq<(Seq<char>, ValueV)>) -> bool {
    forall|i: int, j: int| 0 <= i < j < e.len() ==> e[i].0 != e[j].0
}

/// Exporting `v` under `name`: `nil` removes the name; an exported name keeps its place and
/// takes the new value; a new name goes last.
pub open spec fn insert_export(e: Seq<(Seq<char>, ValueV)>, name: Seq<char>, v: ValueV) -> Seq<
    (Seq<char>, ValueV),
> {
    let p = position_of(e, name);
    if v is Nil {
        if p >= 0 { e.remove(p) } else { e }
    } else if p >= 0 {
        e.update(p, (name, v))
    } else {
        e.push((name, v))
    }
}

/// The value exported under `name`, if any.
pub open spec fn lookup_export(e: Seq<(Seq<char>, ValueV)>, name: Seq<char>) -> Option<ValueV> {
    let p = position_of(e, name);
    if p >= 0 { Some(e[p].1) } else { None }
}

/// Where `position_of` points: at the first export of the name, or nowhere if there is none.
pub proof fn lemma_position_of(e: Seq<(Seq<char>, ValueV)>, name: Seq<char>)
    ensures
        -1 <= position_of(e, name) < e.len(),
        position_of(e, name) >= 0 ==> e[position_of(e, name)].0 == name,
        forall|k: int| 0 <= k < e.len() && (position_of(e, name) < 0 || k < position_of(e, name))
            ==> #[trigger] e[k].0 != name,
    decreases e.len(),
{
    if e.len() > 0 && e[0].0 != name {
        lemma_position_of(e.drop_first(), name);
        assert forall|k: int| 0 <= k < e.len() && (position_of(e, name) < 0 || k < position_of(
            e,
            name,
        )) implies #[trigger] e[k].0 != name by {
            if k > 0 {
                assert(e[k] == e.drop_first()[k - 1]);
            }
        }
    }
}

/// Reading an export back after writing it: the name holds what was written (nothing for
/// `nil`), every other name is unchanged, and names stay distinct.
pub proof fn lemma_insert_lookup(
    e: Seq<(Seq<char>, ValueV)>,
    name: Seq<char>,
    v: ValueV,
    other: Seq<char>,
)
    requires
        distinct_names(e),
    ensures
        distinct_names(insert_export(e, name, v)),
        lookup_export(insert_export(e, name, v), name) == if v is Nil {
            None
        } else {
            Some(v)
        },
        other != name ==> lookup_export(insert_export(e, name, v), other) == lookup_export(e, other),
{
    let r = insert_export(e, name, v);
    let p = position_of(e, name);
    lemma_position_of(e, name);
    lemma_position_of(e, other);
    lemma_position_of(r, name);
    lemma_position_of(r, other);
    let q = position_of(e, other);
    let pr = position_of(r, name);
    let qr = position_of(r, other);
    if v is Nil {
        if p >= 0 {
            assert forall|i: int, j: int| 0 <= i < j < r.len() implies r[i].0 != r[j].0 by {
                let i0 = if i < p { i } else { i + 1 };
                let j0 = if j < p { j } else { j + 1 };
                assert(r[i] == e[i0]);
                assert(r[j] == e[j0]);
            }
            if pr >= 0 {
                let k = if pr < p { pr } else { pr + 1 };
                assert(r[pr] == e[k]);
            }
            if other != name {
                if q >= 0 {
                    let at = if q < p { q } else { q - 1 };
                    assert(r[at] == e[q]);
                    assert(qr == at) by {
                        if qr < at {
                            let k = if qr < p { qr } else { qr + 1 };
                            assert(r[qr] == e[k]);
                        }
                    }
                } else if qr >= 0 {
                    let k = if qr < p { qr } else { qr + 1 };
                    assert(r[qr] == e[k]);
                }
            }
        }
    } else if p >= 0 {
        assert forall|i: int, j: int| 0 <= i < j < r.len() implies r[i].0 != r[j].0 by {
            assert(r[i].0 == e[i].0);
            assert(r[j].0 == e[j].0);
        }
        assert(r[p].0 == name);
        assert(pr == p) by {
            if 0 <= pr < p {
                assert(r[pr].0 == e[pr].0);
            }
        }
        if other != name {
            if q >= 0 {
                assert(r[q].0 == e[q].0);
                assert(qr == q) by {
                    if qr < q {
                        assert(r[qr].0 == e[qr].0);
                    }
                }
            } else if qr >= 0 {
                assert(r[qr].0 == e[qr].0);
            }
        }
    } else {
        assert forall|i: int, j: int| 0 <= i < j < r.len() implies r[i].0 != r[j].0 by {
            if j == e.len() {
                assert(r[i] == e[i]);
            } else {
                assert(r[i] == e[i]);
                assert(r[j] == e[j]);
            }
        }
        assert(r[e.len() as int].0 == name);
        assert(pr == e.len()) by {
            if 0 <= pr < e.len() {
                assert(r[pr] == e[pr]);
            }
        }
        if other != name {
            if q >= 0 {
                assert(r[q] == e[q]);
                assert(qr == q) by {
                    if qr < q {
                        assert(r[qr] == e[qr]);
                    }
                }
            } else if qr >= 0 {
                assert(qr < e.len());
                assert(r[qr] == e[qr]);
            }
        }
    }
}

/// A module: its name and what it exports.
pub struct Module {
    name: String,
    contents: ModuleContents,
}

/// What a module holds: exports given directly, or source evaluated with a private host value.
pub enum ModuleContents {
    Direct(Vec<(String, Value)>),
    Source { source: String, host: Value },
}

/// The model of a module: its name, and its exports or its source and host.
pub enum ModuleV {
    Direct(Seq<char>, Seq<(Seq<char>, ValueV)>),
    Source(Seq<char>, Seq<char>, ValueV),
}

impl View for Module {
    type V = ModuleV;

    closed spec fn view(&self) -> ModuleV {
        match &self.contents {
            ModuleContents::Direct(exports) => ModuleV::Direct(self.name@, exports_view(exports@)),
            ModuleContents::Source { source, host } => ModuleV::Source(
                self.name@,
                source@,
                host@,
            ),
        }
    }
}

/// A module under construction from native functions and values.
pub struct ModuleBuilder {
    name: String,
    exports: Vec<(String, Value)>,
}

impl View for ModuleBuilder {
    type V = (Seq<char>, Seq<(Seq<char>, ValueV)>);

    closed spec fn view(&self) -> (Seq<char>, Seq<(Seq<char>, ValueV)>) {
        (self.name@, exports_view(self.exports@))
    }
}

/// A source-backed module under construction.
pub struct SourceModuleBuilder {
    name: String,
    source: String,
    host: Value,
}

impl View for SourceModuleBuilder {
    type V = (Seq<char>, Seq<char>, ValueV);

    closed spec fn view(&self) -> (Seq<char>, Seq<char>, ValueV) {
        (self.name@, self.source@, self.host@)
    }
}

/// The model of a map with the given exports as string keys, in order.
pub open spec fn exports_as_entries(e: Seq<(Seq<char>, ValueV)>) -> Seq<(MapKeyV, ValueV)> {
    e.map_values(|x: (Seq<char>, ValueV)| (MapKeyV::String(x.0), x.1))
}

/// Stores the exports as a new map with string keys, in order.
pub fn direct_value(exports: Vec<(String, Value)>, heap: &mut Heap) -> (v: Value)
    ensures
        v@ == ValueV::Table(old(heap)@.maps.len() as usize),
        final(heap)@ == (HeapV {
            lists: old(heap)@.lists,
            maps: old(heap)@.maps.push(exports_as_entries(exports_view(exports@))),
        }),
{
    let ghost model = exports_view(exports@);
    let mut entries: Vec<(MapKey, Value)> = Vec::new();
    let mut rest = exports;
    let mut taken: Vec<(String, Value)> = Vec::new();
    let n = rest.len();
    let mut i: usize = 0;
    while i < n
        invariant
            i <= n,
            n == model.len(),
            rest@.len() == n,
            exports_view(rest@) == model,
            entries_view(entries@) == exports_as_entries(model.take(i as int)),
        decreases n - i,
    {
        let name = rest[i].0.clone();
        let value = rest[i].1.copy();
        proof {
            assert(exports_view(rest@)[i as int] == (rest@[i as int].0@, rest@[i as int].1@));
        }
        let ghost before = entries_view(entries@);
        entries.push((MapKey::String(name), value));
        proof {
            assert(entries_view(entries@) =~= before.push((MapKeyV::String(model[i as int].0), model[i as int].1)));
            assert(model.take(i + 1) =~= model.take(i as int).push(model[i as int]));
            assert(exports_as_entries(model.take(i + 1)) =~= exports_as_entries(model.take(i as int)).push(
                (MapKeyV::String(model[i as int].0), model[i as int].1),
            ));
        }
        i = i + 1;
    }
    assert(model.take(n as int) =~= model);
    let v = heap.map(entries);
    proof {
        assert(heap@ =~= HeapV {
            lists: old(heap)@.lists,
            maps: old(heap)@.maps.push(exports_as_entries(model)),
        });
    }
    v
}

impl Module {
    /// Starts a module built from native functions and values.
    pub fn builder(name: String) -> (b: ModuleBuilder)
        ensures
            b@ == (name@, Seq::<(Seq<char>, ValueV)>::empty()),
    {
        let b = ModuleBuilder { name, exports: Vec::new() };
        assert(exports_view(b.exports@) =~= Seq::<(Seq<char>, ValueV)>::empty());
        b
    }

    /// Starts a module backed by Simi source; its host value starts as a new empty map.
    pub fn source(name: String, source: String, heap: &mut Heap) -> (b: SourceModuleBuilder)
        ensures
            b@ == (name@, source@, ValueV::Table(old(heap)@.maps.len() as usize)),
            final(heap)@ == (HeapV {
                lists: old(heap)@.lists,
                maps: old(heap)@.maps.push(Seq::empty()),
            }),
    {
        let host = direct_value(Vec::new(), heap);
        proof {
            assert(exports_as_entries(exports_view(Seq::<(String, Value)>::empty())) =~= Seq::<
                (MapKeyV, ValueV),
            >::empty());
        }
        SourceModuleBuilder { name, source, host }
    }

    /// The module's name.
    pub fn name(&self) -> (name: &str)
        ensures
            name@ == match self@ {
                ModuleV::Direct(n, _) => n,
                ModuleV::Source(n, _, _) => n,
            },
    {
        self.name.as_str()
    }

    /// The module's name and contents.
    pub fn into_parts(self) -> (r: (String, ModuleContents))
        ensures
            self@ == match r.1 {
                ModuleContents::Direct(exports) => ModuleV::Direct(r.0@, exports_view(exports@)),
                ModuleContents::Source { source, host } => ModuleV::Source(r.0@, source@, host@),
            },
    {
        (self.name, self.contents)
    }

    /// Whether the module is backed by Simi source.
    pub fn is_source_backed(&self) -> (r: bool)
        ensures
            r == (self@ is Source),
    {
        match &self.contents {
            ModuleContents::Source { .. } => true,
            ModuleContents::Direct(_) => false,
        }
    }
}

impl ModuleBuilder {
    /// No name is exported twice.
    pub closed spec fn well_formed(&self) -> bool {
        distinct_names(exports_view(self.exports@))
    }

    /// Adds a native function of the given arity under `name`; it is known to callers by the
    /// module's name, a dot, and `name`, and is carried out by the embedder's callback under the
    /// key `callback`. Building runs no callback.
    pub fn function(self, name: String, arity: usize, callback: usize) -> (b: ModuleBuilder)
        ensures
            b@.0 == self@.0,
            b@.1 == insert_export(
                self@.1,
                name@,
                ValueV::NativeFunction(self@.0 + "."@ + name@, arity, callback),
            ),
    {
        let mut b = self;
        let mut qualified = b.name.clone();
        push_str(&mut qualified, ".");
        push_str(&mut qualified, name.as_str());
        b.insert(name, Value::NativeFunction(NativeFunction { name: qualified, arity, callback }));
        b
    }

    /// Exports `value` under `name`; `nil` removes the name.
    pub fn value(self, name: String, value: Value) -> (b: ModuleBuilder)
        ensures
            b@.0 == self@.0,
            b@.1 == insert_export(self@.1, name@, value@),
    {
        let mut b = self;
        b.insert(name, value);
        b
    }

    /// The module with the exports gathered so far.
    pub fn build(self) -> (m: Module)
        ensures
            m@ == ModuleV::Direct(self@.0, self@.1),
    {
        Module { name: self.name, contents: ModuleContents::Direct(self.exports) }
    }

    /// The exports gathered so far as a new map with string keys.
    pub fn build_value(self, heap: &mut Heap) -> (v: Value)
        ensures
            v@ == ValueV::Table(old(heap)@.maps.len() as usize),
            final(heap)@ == (HeapV {
                lists: old(heap)@.lists,
                maps: old(heap)@.maps.push(exports_as_entries(self@.1)),
            }),
    {
        direct_value(self.exports, heap)
    }

    /// The first position of `name` among the exports.
    fn position(&self, name: &str) -> (p: Option<usize>)
        ensures
            match p {
                Some(i) => position_of(self@.1, name@) == i && i < self.exports@.len(),
                None => position_of(self@.1, name@) == -1,
            },
    {
        proof {
            lemma_position_of(self@.1, name@);
        }
        let mut i: usize = 0;
        while i < self.exports.len()
            invariant
                i <= self.exports@.len(),
                forall|k: int| 0 <= k < i ==> #[trigger] self@.1[k].0 != name@,
            decreases self.exports@.len() - i,
        {
            if str_equal(self.exports[i].0.as_str(), name) {
                proof {
                    lemma_position_is_first(self@.1, name@, i as int);
                }
                return Some(i);
            }
            i = i + 1;
        }
        proof {
            lemma_position_is_first(self@.1, name@, -1);
        }
        None
    }

    /// Exports `value` under `name` as [`insert_export`] says.
    fn insert(&mut self, name: String, value: Value)
        ensures
            final(self)@.0 == old(self)@.0,
            final(self)@.1 == insert_export(old(self)@.1, name@, value@),
    {
        let position = self.position(name.as_str());
        let is_nil = match &value {
            Value::Nil => true,
            _ => false,
        };
        let ghost before = exports_view(self.exports@);
        if is_nil {
            if let Some(p) = position {
                self.exports.remove(p);
                proof {
                    assert(exports_view(self.exports@) =~= before.remove(p as int));
                }
            }
        } else if let Some(p) = position {
            let ghost entry = (name@, value@);
            self.exports.set(p, (name, value));
            proof {
                assert(exports_view(self.exports@) =~= before.update(p as int, entry));
            }
        } else {
            let ghost entry = (name@, value@);
            self.exports.push((name, value));
            proof {
                assert(exports_view(self.exports@) =~= before.push(entry));
            }
        }
    }
}

/// The first position of a name is the first index holding it.
proof fn lemma_position_is_first(e: Seq<(Seq<char>, ValueV)>, name: Seq<char>, i: int)
    requires
        -1 <= i < e.len(),
        i >= 0 ==> e[i].0 == name,
        forall|k: int| 0 <= k < e.len() && (i < 0 || k < i) ==> #[trigger] e[k].0 != name,
    ensures
        position_of(e, name) == i,
{
    lemma_position_of(e, name);
    let p = position_of(e, name);
    if p >= 0 && i >= 0 {
        if p < i {
            assert(e[p].0 != name);
        } else if i < p {
            assert(e[i].0 != name);
        }
    } else if p >= 0 {
        assert(e[p].0 != name);
    } else if i >= 0 {
        assert(e[i].0 != name);
    }
}

impl SourceModuleBuilder {
    /// Replaces the private host value installed before the module's source runs.
    pub fn host(self, host: Value) -> (b: SourceModuleBuilder)
        ensures
            b@ == (self@.0, self@.1, host@),
    {
        SourceModuleBuilder { name: self.name, source: self.source, host }
    }

    /// The module.
    pub fn build(self) -> (m: Module)
        ensures
            m@ == ModuleV::Source(self@.0, self@.1, self@.2),
    {
        Module { name: self.name, contents: ModuleContents::Source { source: self.source, host: self.host } }
    }
}

} // verus!
