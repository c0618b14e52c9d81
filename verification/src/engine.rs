//! The modules an engine offers to `require`, and how a source module is loaded at most once:
//! it is evaluated on its first `require`, a `require` of it while it is being evaluated is a
//! cycle, its value is kept once evaluation succeeds, and a failed evaluation lets a later
//! `require` try again.
use vstd::prelude::*;
use crate::heap::{Heap, HeapV};
use crate::module::{direct_value, exports_as_entries, Module, ModuleContents, ModuleV};
use crate::text::str_equal;
use crate::value::{Value, ValueV};

verus! {

/// Where the evaluation of a source module stands.
#[derive(Debug)]
pub enum SourceModuleState {
    Unloaded,
    Loading,
    Loaded(Value),
}

/// A module as the registry keeps it: a value given directly, or source with its host value and
/// loading state.
#[derive(Debug)]
pub enum ModuleEntry {
    Direct(Value),
    Source { source: String, host: Value, state: SourceModuleState },
}

/// What `require` finds for a name.
#[derive(Debug)]
pub enum ModuleLookup {
    Missing,
    Loading,
    Loaded(Value),
    Source { source: String, host: Value },
}

/// The model of a loading state.
pub enum StateV {
    Unloaded,
    Loading,
    Loaded(ValueV),
}

/// The model of a registry entry.
pub enum EntryV {
    Direct(ValueV),
    Source(Seq<char>, ValueV, StateV),
}

/// The model of a lookup.
pub enum LookupV {
    Missing,
    Loading,
    Loaded(ValueV),
    Source(Seq<char>, ValueV),
}

/// The model of a loading state.
pub open spec fn state_view(s: SourceModuleState) -> StateV {
    match s {
        SourceModuleState::Unloaded => StateV::Unloaded,
        SourceModuleState::Loading => StateV::Loading,
        SourceModuleState::Loaded(v) => StateV::Loaded(v@),
    }
}

/// The model of a registry entry.
pub open spec fn entry_view(e: ModuleEntry) -> EntryV {
    match e {
        ModuleEntry::Direct(v) => EntryV::Direct(v@),
        ModuleEntry::Source { source, host, state } => EntryV::Source(source@, host@, state_view(state)),
    }
}

/// The model of a lookup.
pub open spec fn lookup_view(l: ModuleLookup) -> LookupV {
    match l {
        ModuleLookup::Missing => LookupV::Missing,
        ModuleLookup::Loading => LookupV::Loading,
        ModuleLookup::Loaded(v) => LookupV::Loaded(v@),
        ModuleLookup::Source { source, host } => LookupV::Source(source@, host@),
    }
}

/// The models of registry entries, by name.
pub open spec fn entries_of(entries: Seq<(String, ModuleEntry)>) -> Seq<(Seq<char>, EntryV)> {
    entries.map_values(|e: (String, ModuleEntry)| (e.0@, entry_view(e.1)))
}

/// The position of the entry named `name`.
pub open spec fn entry_index(es: Seq<(Seq<char>, EntryV)>, name: Seq<char>) -> Option<int> {
    if exists|i: int| 0 <= i < es.len() && #[trigger] es[i].0 == name {
        Some(choose|i: int| 0 <= i < es.len() && #[trigger] es[i].0 == name)
    } else {
        None
    }
}

/// Whether no two entries share a name.
pub open spec fn distinct_entry_names(es: Seq<(Seq<char>, EntryV)>) -> bool {
    forall|i: int, j: int| 0 <= i < j < es.len() ==> #[trigger] es[i].0 != #[trigger] es[j].0
}

/// What `require` finds for `name`, and the entries after: a source module that has not been
/// evaluated is handed out for evaluation and marked as loading.
pub open spec fn begin_load_spec(es: Seq<(Seq<char>, EntryV)>, name: Seq<char>) -> (LookupV, Seq<(Seq<char>, EntryV)>) {
    match entry_index(es, name) {
        None => (LookupV::Missing, es),
        Some(i) => match es[i].1 {
            EntryV::Direct(v) => (LookupV::Loaded(v), es),
            EntryV::Source(source, host, state) => match state {
                StateV::Unloaded => (
                    LookupV::Source(source, host),
                    es.update(i, (name, EntryV::Source(source, host, StateV::Loading))),
                ),
                StateV::Loading => (LookupV::Loading, es),
                StateV::Loaded(v) => (LookupV::Loaded(v), es),
            },
        },
    }
}

/// The entries after the source module `name` reached `state`; other entries are unchanged.
pub open spec fn set_state_spec(es: Seq<(Seq<char>, EntryV)>, name: Seq<char>, state: StateV) -> Seq<(Seq<char>, EntryV)> {
    match entry_index(es, name) {
        Some(i) => match es[i].1 {
            EntryV::Source(source, host, _) => es.update(i, (name, EntryV::Source(source, host, state))),
            EntryV::Direct(_) => es,
        },
        None => es,
    }
}

/// The names and sources of the source modules, in registry order.
pub open spec fn sources_spec(es: Seq<(Seq<char>, EntryV)>) -> Seq<(Seq<char>, Seq<char>)>
    decreases es.len(),
{
    if es.len() == 0 {
        Seq::empty()
    } else {
        let rest = sources_spec(es.drop_last());
        match es.last().1 {
            EntryV::Source(source, _, _) => rest.push((es.last().0, source)),
            EntryV::Direct(_) => rest,
        }
    }
}

/// A module registry: the modules of an engine by name.
#[derive(Debug)]
pub struct ModuleRegistry {
    entries: Vec<(String, ModuleEntry)>,
}

impl View for ModuleRegistry {
    type V = Seq<(Seq<char>, EntryV)>;

    closed spec fn view(&self) -> Seq<(Seq<char>, EntryV)> {
        entries_of(self.entries@)
    }
}

/// The first position of the entry named `name`, found by a search.
fn find_module(entries: &Vec<(String, ModuleEntry)>, name: &str) -> (r: Option<usize>)
    requires
        distinct_entry_names(entries_of(entries@)),
    ensures
        r matches Some(i) ==> i < entries@.len() && entry_index(entries_of(entries@), name@) == Some(i as int),
        r is None ==> entry_index(entries_of(entries@), name@) is None,
{
    let ghost es = entries_of(entries@);
    let mut i: usize = 0;
    while i < entries.len()
        invariant
            i <= entries@.len() == es.len(),
            es == entries_of(entries@),
            distinct_entry_names(es),
            forall|j: int| 0 <= j < i ==> #[trigger] es[j].0 != name@,
        decreases entries@.len() - i,
    {
        assert(es[i as int].0 == entries@[i as int].0@);
        if str_equal(entries[i].0.as_str(), name) {
            assert(es[i as int].0 == name@);
            let ghost k = choose|k: int| 0 <= k < es.len() && #[trigger] es[k].0 == name@;
            assert(k == i as int) by {
                if k != i as int {
                    if k < i {
                        assert(es[k].0 != name@);
                    } else {
                        assert(es[i as int].0 != es[k].0);
                    }
                }
            }
            return Some(i);
        }
        i = i + 1;
    }
    None
}

impl ModuleRegistry {
    /// No two modules share a name.
    pub closed spec fn well_formed(&self) -> bool {
        distinct_entry_names(self@)
    }

    /// Looks up `name` for `require`. A source module that has not been evaluated is handed out
    /// with its host value and marked as loading.
    pub fn begin_load(&mut self, name: &str) -> (r: ModuleLookup)
        requires
            old(self).well_formed(),
        ensures
            final(self).well_formed(),
            (lookup_view(r), final(self)@) == begin_load_spec(old(self)@, name@),
    {
        let index = match find_module(&self.entries, name) {
            Some(i) => i,
            None => return ModuleLookup::Missing,
        };
        let ghost es = self@;
        assert(es[index as int] == (self.entries@[index as int].0@, entry_view(self.entries@[index as int].1)));
        let lookup = match &self.entries[index].1 {
            ModuleEntry::Direct(value) => ModuleLookup::Loaded(value.copy()),
            ModuleEntry::Source { source, host, state } => match state {
                SourceModuleState::Unloaded => ModuleLookup::Source { source: source.clone(), host: host.copy() },
                SourceModuleState::Loading => ModuleLookup::Loading,
                SourceModuleState::Loaded(value) => ModuleLookup::Loaded(value.copy()),
            },
        };
        if matches!(lookup, ModuleLookup::Source { .. }) {
            self.set_state(index, SourceModuleState::Loading);
        }
        lookup
    }

    /// Moves the source module at `index` to `state`.
    fn set_state(&mut self, index: usize, state: SourceModuleState)
        requires
            old(self).well_formed(),
            index < old(self)@.len(),
            old(self)@[index as int].1 is Source,
        ensures
            final(self).well_formed(),
            final(self)@ == old(self)@.update(
                index as int,
                (
                    old(self)@[index as int].0,
                    EntryV::Source(
                        old(self)@[index as int].1->Source_0,
                        old(self)@[index as int].1->Source_1,
                        state_view(state),
                    ),
                ),
            ),
    {
        let ghost es = self@;
        let mut taken = (String::new(), ModuleEntry::Direct(Value::Nil));
        self.entries.set_and_swap(index, &mut taken);
        let (name, entry) = taken;
        assert(es[index as int] == (name@, entry_view(entry)));
        let updated = match entry {
            ModuleEntry::Source { source, host, .. } => ModuleEntry::Source { source, host, state },
            ModuleEntry::Direct(value) => ModuleEntry::Direct(value),
        };
        self.entries.set(index, (name, updated));
        proof {
            let expected = es.update(
                index as int,
                (es[index as int].0, EntryV::Source(es[index as int].1->Source_0, es[index as int].1->Source_1, state_view(state))),
            );
            assert(self@ =~= expected);
        }
    }

    /// Records the value of a source module whose evaluation succeeded.
    pub fn finish_load(&mut self, name: &str, value: Value)
        requires
            old(self).well_formed(),
        ensures
            final(self).well_formed(),
            final(self)@ == set_state_spec(old(self)@, name@, StateV::Loaded(value@)),
    {
        if let Some(index) = find_module(&self.entries, name) {
            let ghost es = self@;
            assert(es[index as int] == (self.entries@[index as int].0@, entry_view(self.entries@[index as int].1)));
            if let ModuleEntry::Source { .. } = &self.entries[index].1 {
                self.set_state(index, SourceModuleState::Loaded(value));
            }
        }
    }

    /// Lets a later `require` evaluate a source module whose evaluation failed.
    pub fn fail_load(&mut self, name: &str)
        requires
            old(self).well_formed(),
        ensures
            final(self).well_formed(),
            final(self)@ == set_state_spec(old(self)@, name@, StateV::Unloaded),
    {
        if let Some(index) = find_module(&self.entries, name) {
            let ghost es = self@;
            assert(es[index as int] == (self.entries@[index as int].0@, entry_view(self.entries@[index as int].1)));
            if let ModuleEntry::Source { .. } = &self.entries[index].1 {
                self.set_state(index, SourceModuleState::Unloaded);
            }
        }
    }

    /// The names and sources of the source modules.
    pub fn sources(&self) -> (r: Vec<(String, String)>)
        ensures
            r@.map_values(|p: (String, String)| (p.0@, p.1@)) == sources_spec(self@),
    {
        let ghost es = self@;
        let mut out: Vec<(String, String)> = Vec::new();
        let mut i: usize = 0;
        assert(es.take(0) =~= Seq::<(Seq<char>, EntryV)>::empty());
        assert(out@.map_values(|p: (String, String)| (p.0@, p.1@)) =~= Seq::<(Seq<char>, Seq<char>)>::empty());
        while i < self.entries.len()
            invariant
                i <= self.entries@.len() == es.len(),
                es == self@,
                out@.map_values(|p: (String, String)| (p.0@, p.1@)) == sources_spec(es.take(i as int)),
            decreases self.entries@.len() - i,
        {
            let ghost before = out@.map_values(|p: (String, String)| (p.0@, p.1@));
            assert(es.take(i + 1).drop_last() =~= es.take(i as int));
            assert(es.take(i + 1).last() == es[i as int]);
            assert(es[i as int] == (self.entries@[i as int].0@, entry_view(self.entries@[i as int].1)));
            if let ModuleEntry::Source { source, .. } = &self.entries[i].1 {
                out.push((self.entries[i].0.clone(), source.clone()));
                proof {
                    assert(out@.map_values(|p: (String, String)| (p.0@, p.1@)) =~= before.push(
                        (es[i as int].0, es[i as int].1->Source_0),
                    ));
                }
            }
            i = i + 1;
        }
        assert(es.take(i as int) =~= es);
        out
    }
}

/// A source module that `require` handed out for evaluation is reported as loading by every
/// further `require` until its evaluation ends: a `require` cycle is detected.
pub proof fn lemma_loading_detects_cycles(es: Seq<(Seq<char>, EntryV)>, name: Seq<char>)
    requires
        distinct_entry_names(es),
        begin_load_spec(es, name).0 is Source,
    ensures
        begin_load_spec(begin_load_spec(es, name).1, name).0 == LookupV::Loading,
{
    let i = entry_index(es, name)->Some_0;
    let es2 = begin_load_spec(es, name).1;
    assert(es2[i].0 == name);
    assert(entry_index(es2, name) is Some);
    let j = entry_index(es2, name)->Some_0;
    if j != i {
        assert(es2[j] == es[j]);
        assert(es[j].0 == name && es[i].0 == name);
        if j < i {
            assert(es[j].0 != es[i].0);
        } else {
            assert(es[i].0 != es[j].0);
        }
    }
}

/// Once a source module's evaluation succeeded, every `require` of it gives the same value
/// without evaluating it again.
pub proof fn lemma_loaded_module_is_kept(es: Seq<(Seq<char>, EntryV)>, name: Seq<char>, v: ValueV)
    requires
        distinct_entry_names(es),
        entry_index(es, name) matches Some(i) && es[i].1 is Source,
    ensures
        begin_load_spec(set_state_spec(es, name, StateV::Loaded(v)), name) == (
            LookupV::Loaded(v),
            set_state_spec(es, name, StateV::Loaded(v)),
        ),
{
    lemma_same_position(es, name, StateV::Loaded(v));
}

/// After a failed evaluation, the next `require` of the module hands it out for evaluation
/// again, with the same source and host value.
pub proof fn lemma_failed_module_is_retried(es: Seq<(Seq<char>, EntryV)>, name: Seq<char>)
    requires
        distinct_entry_names(es),
        entry_index(es, name) matches Some(i) && es[i].1 is Source,
    ensures
        begin_load_spec(set_state_spec(es, name, StateV::Unloaded), name).0 == LookupV::Source(
            es[entry_index(es, name)->Some_0].1->Source_0,
            es[entry_index(es, name)->Some_0].1->Source_1,
        ),
{
    lemma_same_position(es, name, StateV::Unloaded);
}

/// Changing the state of a module keeps it at its position.
proof fn lemma_same_position(es: Seq<(Seq<char>, EntryV)>, name: Seq<char>, state: StateV)
    requires
        distinct_entry_names(es),
        entry_index(es, name) matches Some(i) && es[i].1 is Source,
    ensures
        entry_index(set_state_spec(es, name, state), name) == entry_index(es, name),
        set_state_spec(es, name, state)[entry_index(es, name)->Some_0].1 == EntryV::Source(
            es[entry_index(es, name)->Some_0].1->Source_0,
            es[entry_index(es, name)->Some_0].1->Source_1,
            state,
        ),
{
    let i = entry_index(es, name)->Some_0;
    let es2 = set_state_spec(es, name, state);
    assert(es2[i].0 == name);
    let j = entry_index(es2, name)->Some_0;
    if j != i {
        assert(es2[j] == es[j]);
        if j < i {
            assert(es[j].0 != es[i].0);
        } else {
            assert(es[i].0 != es[j].0);
        }
    }
}

/// The name of a module.
pub open spec fn module_name(m: ModuleV) -> Seq<char> {
    match m {
        ModuleV::Direct(n, _) => n,
        ModuleV::Source(n, _, _) => n,
    }
}

/// The modules after adding `m`: it replaces a module of the same name in place, or comes last.
pub open spec fn with_module(ms: Seq<ModuleV>, m: ModuleV) -> Seq<ModuleV> {
    if exists|i: int| 0 <= i < ms.len() && module_name(#[trigger] ms[i]) == module_name(m) {
        let i = choose|i: int| 0 <= i < ms.len() && module_name(#[trigger] ms[i]) == module_name(m);
        ms.update(i, m)
    } else {
        ms.push(m)
    }
}

/// Whether no two modules share a name.
pub open spec fn distinct_module_names(ms: Seq<ModuleV>) -> bool {
    forall|i: int, j: int| 0 <= i < j < ms.len() ==> module_name(#[trigger] ms[i]) != module_name(#[trigger] ms[j])
}

/// The registry entries for modules, and the heap after the maps of direct modules' exports
/// were made.
pub open spec fn registry_of(ms: Seq<ModuleV>, h: HeapV) -> (Seq<(Seq<char>, EntryV)>, HeapV)
    decreases ms.len(),
{
    if ms.len() == 0 {
        (Seq::empty(), h)
    } else {
        let (es, h1) = registry_of(ms.drop_last(), h);
        match ms.last() {
            ModuleV::Direct(n, exports) => (
                es.push((n, EntryV::Direct(ValueV::Table(h1.maps.len() as usize)))),
                HeapV { lists: h1.lists, maps: h1.maps.push(exports_as_entries(exports)) },
            ),
            ModuleV::Source(n, source, host) => (es.push((n, EntryV::Source(source, host, StateV::Unloaded))), h1),
        }
    }
}

/// The registry of `ms` has one entry per module, named as the module.
proof fn lemma_registry_names(ms: Seq<ModuleV>, h: HeapV)
    ensures
        registry_of(ms, h).0.len() == ms.len(),
        forall|i: int| 0 <= i < ms.len() ==> #[trigger] registry_of(ms, h).0[i].0 == module_name(ms[i]),
    decreases ms.len(),
{
    if ms.len() > 0 {
        lemma_registry_names(ms.drop_last(), h);
        let es = registry_of(ms, h).0;
        assert forall|i: int| 0 <= i < ms.len() implies #[trigger] es[i].0 == module_name(ms[i]) by {
            if i < ms.len() - 1 {
                assert(ms[i] == ms.drop_last()[i]);
            }
        }
    }
}

/// An engine under construction.
pub struct EngineBuilder {
    modules: Vec<Module>,
    install_prelude: bool,
}

/// The models of modules.
pub open spec fn modules_view(ms: Seq<Module>) -> Seq<ModuleV> {
    ms.map_values(|m: Module| m@)
}

impl EngineBuilder {
    /// The modules registered so far, in order.
    pub closed spec fn modules(&self) -> Seq<ModuleV> {
        modules_view(self.modules@)
    }

    /// Whether the builder will install the standard library prelude.
    pub closed spec fn prelude(&self) -> bool {
        self.install_prelude
    }

    /// A builder without modules.
    pub fn new() -> (b: EngineBuilder)
        ensures
            b.modules() == Seq::<ModuleV>::empty(),
            !b.prelude(),
    {
        let b = EngineBuilder { modules: Vec::new(), install_prelude: false };
        assert(b.modules() =~= Seq::<ModuleV>::empty());
        b
    }

    /// Registers a module; a module of the same name is replaced.
    pub fn module(self, module: Module) -> (b: EngineBuilder)
        requires
            distinct_module_names(self.modules()),
        ensures
            b.modules() == with_module(self.modules(), module@),
            distinct_module_names(b.modules()),
            b.prelude() == self.prelude(),
    {
        let ghost ms = self.modules();
        let mut modules = self.modules;
        let mut i: usize = 0;
        while i < modules.len()
            invariant
                i <= modules@.len(),
                ms == modules_view(modules@),
                ms == self.modules(),
                distinct_module_names(ms),
                forall|j: int| 0 <= j < i ==> module_name(#[trigger] ms[j]) != module_name(module@),
            decreases modules@.len() - i,
        {
            assert(ms[i as int] == modules@[i as int]@);
            let ghost m = module@;
            if str_equal(modules[i].name(), module.name()) {
                let ghost k = choose|k: int| 0 <= k < ms.len() && module_name(#[trigger] ms[k]) == module_name(module@);
                assert(k == i as int) by {
                    if k != i as int {
                        if k < i {
                            assert(module_name(ms[k]) != module_name(module@));
                        } else {
                            assert(module_name(ms[i as int]) != module_name(ms[k]));
                        }
                    }
                }
                modules.set(i, module);
                let b = EngineBuilder { modules, install_prelude: self.install_prelude };
                proof {
                    assert(b.modules() =~= ms.update(i as int, m));
                    assert(exists|x: int| 0 <= x < ms.len() && module_name(#[trigger] ms[x]) == module_name(m));
                    assert(with_module(ms, m) == ms.update(k, m));
                    assert(b.modules() == with_module(ms, m));
                    assert forall|x: int, y: int| 0 <= x < y < b.modules().len() implies module_name(#[trigger] b.modules()[x])
                        != module_name(#[trigger] b.modules()[y]) by {
                        if x != i && y != i {
                            assert(b.modules()[x] == ms[x] && b.modules()[y] == ms[y]);
                        } else if x == i {
                            assert(b.modules()[y] == ms[y]);
                        } else {
                            assert(b.modules()[x] == ms[x]);
                        }
                    }
                }
                return b;
            }
            i = i + 1;
        }
        modules.push(module);
        let b = EngineBuilder { modules, install_prelude: self.install_prelude };
        proof {
            assert(b.modules() =~= ms.push(module@));
            assert forall|x: int, y: int| 0 <= x < y < b.modules().len() implies module_name(#[trigger] b.modules()[x])
                != module_name(#[trigger] b.modules()[y]) by {
                assert(b.modules()[x] == ms[x]);
                if y < ms.len() {
                    assert(b.modules()[y] == ms[y]);
                }
            }
        }
        b
    }

    /// The engine: direct modules become maps of their exports, source modules start unloaded.
    pub fn build(self, heap: &mut Heap) -> (e: Engine)
        requires
            distinct_module_names(self.modules()),
        ensures
            e.registry()@ == registry_of(self.modules(), old(heap)@).0,
            final(heap)@ == registry_of(self.modules(), old(heap)@).1,
            e.registry().well_formed(),
            e.prelude() == self.prelude(),
    {
        let ghost ms = self.modules();
        let ghost h0 = heap@;
        let mut modules = self.modules;
        let mut entries: Vec<(String, ModuleEntry)> = Vec::new();
        proof {
            assert(ms.take(0) =~= Seq::<ModuleV>::empty());
            assert(entries_of(entries@) =~= Seq::<(Seq<char>, EntryV)>::empty());
            assert(modules_view(modules@) =~= ms.skip(0));
        }
        while modules.len() > 0
            invariant
                modules@.len() <= ms.len(),
                modules_view(modules@) == ms.skip(ms.len() - modules@.len()),
                (entries_of(entries@), heap@) == registry_of(ms.take(ms.len() - modules@.len()), h0),
            decreases modules@.len(),
        {
            let ghost k: int = ms.len() - modules@.len();
            let ghost before = entries_of(entries@);
            let ghost h1 = heap@;
            let ghost remaining = modules@;
            let module = modules.remove(0);
            proof {
                assert(module@ == modules_view(remaining)[0]);
                assert(ms.skip(k)[0] == ms[k]);
                assert(modules@ == remaining.remove(0));
                assert forall|j: int| 0 <= j < modules@.len() implies #[trigger] modules_view(modules@)[j]
                    == ms.skip(k + 1)[j] by {
                    assert(modules@[j] == remaining[j + 1]);
                    assert(modules_view(remaining)[j + 1] == ms.skip(k)[j + 1]);
                }
                assert(modules_view(modules@) =~= ms.skip(k + 1));
                assert(ms.take(k + 1int).drop_last() =~= ms.take(k));
                assert(ms.take(k + 1int).last() == ms[k]);
            }
            let (name, contents) = module.into_parts();
            let entry = match contents {
                ModuleContents::Direct(exports) => ModuleEntry::Direct(direct_value(exports, heap)),
                ModuleContents::Source { source, host } => ModuleEntry::Source { source, host, state: SourceModuleState::Unloaded },
            };
            entries.push((name, entry));
            proof {
                assert(entries_of(entries@) =~= before.push((entries@.last().0@, entry_view(entries@.last().1))));
                assert((entries_of(entries@), heap@) == registry_of(ms.take(k + 1int), h0));
            }
        }
        proof {
            assert(ms.take(ms.len() as int) =~= ms);
            lemma_registry_names(ms, h0);
            let es = registry_of(ms, h0).0;
            assert forall|x: int, y: int| 0 <= x < y < es.len() implies #[trigger] es[x].0 != #[trigger] es[y].0 by {
                assert(es[x].0 == module_name(ms[x]));
                assert(es[y].0 == module_name(ms[y]));
            }
        }
        Engine { modules: ModuleRegistry { entries }, install_prelude: self.install_prelude }
    }
}

/// An engine: the modules `require` finds.
pub struct Engine {
    modules: ModuleRegistry,
    install_prelude: bool,
}

impl Engine {
    /// The module registry.
    pub closed spec fn registry(&self) -> ModuleRegistry {
        self.modules
    }

    /// Whether evaluation installs the standard library prelude.
    pub closed spec fn prelude(&self) -> bool {
        self.install_prelude
    }

    /// A builder for an engine.
    pub fn builder() -> (b: EngineBuilder)
        ensures
            b.modules() == Seq::<ModuleV>::empty(),
            !b.prelude(),
    {
        EngineBuilder::new()
    }

    /// The names and sources of the engine's source modules.
    pub fn module_sources(&self) -> (r: Vec<(String, String)>)
        ensures
            r@.map_values(|p: (String, String)| (p.0@, p.1@)) == sources_spec(self.registry()@),
    {
        self.modules.sources()
    }

    /// The module registry, for `require`.
    pub fn modules(&mut self) -> (r: &mut ModuleRegistry)
        ensures
            *r == old(self).registry(),
            final(self).registry() == *final(r),
            final(self).prelude() == old(self).prelude(),
    {
        &mut self.modules
    }
}

/// An operation on a module registry: `begin_load`, `finish_load` or `fail_load` of a name.
pub enum RegistryStep {
    Begin(Seq<char>),
    Finish(Seq<char>, ValueV),
    Fail(Seq<char>),
}

/// The entries after one operation.
pub open spec fn step_spec(es: Seq<(Seq<char>, EntryV)>, step: RegistryStep) -> Seq<(Seq<char>, EntryV)> {
    match step {
        RegistryStep::Begin(n) => begin_load_spec(es, n).1,
        RegistryStep::Finish(n, v) => set_state_spec(es, n, StateV::Loaded(v)),
        RegistryStep::Fail(n) => set_state_spec(es, n, StateV::Unloaded),
    }
}

/// The entries after a sequence of operations, first to last.
pub open spec fn run_spec(es: Seq<(Seq<char>, EntryV)>, steps: Seq<RegistryStep>) -> Seq<(Seq<char>, EntryV)>
    decreases steps.len(),
{
    if steps.len() == 0 {
        es
    } else {
        step_spec(run_spec(es, steps.drop_last()), steps.last())
    }
}

/// The loading state of the source module `name` after the operations, from `state`: a
/// `begin_load` moves it from unloaded to loading, `finish_load` makes it loaded with the value,
/// `fail_load` makes it unloaded, and operations on other names leave it.
pub open spec fn state_after(state: StateV, steps: Seq<RegistryStep>, name: Seq<char>) -> StateV
    decreases steps.len(),
{
    if steps.len() == 0 {
        state
    } else {
        let before = state_after(state, steps.drop_last(), name);
        match steps.last() {
            RegistryStep::Begin(n) => if n == name && before is Unloaded { StateV::Loading } else { before },
            RegistryStep::Finish(n, v) => if n == name { StateV::Loaded(v) } else { before },
            RegistryStep::Fail(n) => if n == name { StateV::Unloaded } else { before },
        }
    }
}

/// What `begin_load` answers for a source module in `state`.
pub open spec fn source_lookup(source: Seq<char>, host: ValueV, state: StateV) -> LookupV {
    match state {
        StateV::Unloaded => LookupV::Source(source, host),
        StateV::Loading => LookupV::Loading,
        StateV::Loaded(v) => LookupV::Loaded(v),
    }
}

/// The entry of a name is the one at the position holding that name.
proof fn lemma_index_at(es: Seq<(Seq<char>, EntryV)>, k: int)
    requires
        distinct_entry_names(es),
        0 <= k < es.len(),
    ensures
        entry_index(es, es[k].0) == Some(k),
{
    let j = entry_index(es, es[k].0)->Some_0;
    if j != k {
        if j < k {
            assert(es[j].0 != es[k].0);
        } else {
            assert(es[k].0 != es[j].0);
        }
    }
}

/// Whether `after` keeps the names, positions and kinds of `es`, and each source module's
/// source and host value, with its state moved as `state_after` says for `steps`.
pub open spec fn follows(
    es: Seq<(Seq<char>, EntryV)>,
    after: Seq<(Seq<char>, EntryV)>,
    steps: Seq<RegistryStep>,
) -> bool {
    &&& after.len() == es.len()
    &&& forall|k: int| 0 <= k < es.len() ==> (#[trigger] after[k]).0 == es[k].0 && match es[k].1 {
        EntryV::Direct(v) => after[k].1 == EntryV::Direct(v),
        EntryV::Source(source, host, state) => after[k].1 == EntryV::Source(
            source,
            host,
            state_after(state, steps, es[k].0),
        ),
    }
}

proof fn lemma_run_follows(es: Seq<(Seq<char>, EntryV)>, steps: Seq<RegistryStep>)
    requires
        distinct_entry_names(es),
    ensures
        follows(es, run_spec(es, steps), steps),
        distinct_entry_names(run_spec(es, steps)),
    decreases steps.len(),
{
    if steps.len() > 0 {
        let prefix = steps.drop_last();
        lemma_run_follows(es, prefix);
        let mid = run_spec(es, prefix);
        let after = run_spec(es, steps);
        assert(after == step_spec(mid, steps.last()));
        let n = match steps.last() {
            RegistryStep::Begin(n) => n,
            RegistryStep::Finish(n, _) => n,
            RegistryStep::Fail(n) => n,
        };
        assert(after.len() == mid.len());
        assert forall|k: int| 0 <= k < mid.len() implies (#[trigger] after[k]).0 == mid[k].0 && (
            mid[k].0 != n ==> after[k] == mid[k]) && (mid[k].0 == n ==> after[k] == match mid[k].1 {
                EntryV::Direct(v) => mid[k],
                EntryV::Source(source, host, state) => (mid[k].0, EntryV::Source(
                    source,
                    host,
                    match steps.last() {
                        RegistryStep::Begin(_) => if state is Unloaded { StateV::Loading } else { state },
                        RegistryStep::Finish(_, v) => StateV::Loaded(v),
                        RegistryStep::Fail(_) => StateV::Unloaded,
                    },
                )),
            }) by {
            match entry_index(mid, n) {
                None => {
                    if mid[k].0 == n {
                        assert(exists|i: int| 0 <= i < mid.len() && #[trigger] mid[i].0 == n);
                    }
                },
                Some(i) => {
                    lemma_index_at(mid, i);
                    assert(mid[i].0 == n);
                    if k != i {
                        if mid[k].0 == n {
                            if k < i {
                                assert(mid[k].0 != mid[i].0);
                            } else {
                                assert(mid[i].0 != mid[k].0);
                            }
                        }
                    }
                },
            }
        }
        assert forall|k: int| 0 <= k < es.len() implies (#[trigger] after[k]).0 == es[k].0 && match es[k].1 {
            EntryV::Direct(v) => after[k].1 == EntryV::Direct(v),
            EntryV::Source(source, host, state) => after[k].1 == EntryV::Source(
                source,
                host,
                state_after(state, steps, es[k].0),
            ),
        } by {
            assert(mid[k].0 == es[k].0);
        }
        assert forall|i: int, j: int| 0 <= i < j < after.len() implies #[trigger] after[i].0 != #[trigger] after[j].0 by {
            assert(after[i].0 == es[i].0 && after[j].0 == es[j].0);
        }
    }
}

/// The whole life of a module under any sequence of `begin_load`, `finish_load` and
/// `fail_load` calls: a name without an entry is always missing; a module given directly is
/// always found with its value; and a source module is answered by the state the calls have
/// moved it to, which only calls of its own name change (a first `begin_load` hands its source
/// out and marks it loading, every later one answers loading until `finish_load` keeps the value
/// or `fail_load` lets the next `begin_load` hand the source out again).
pub proof fn lemma_registry_life_cycle(es: Seq<(Seq<char>, EntryV)>, steps: Seq<RegistryStep>, name: Seq<char>)
    requires
        distinct_entry_names(es),
    ensures
        distinct_entry_names(run_spec(es, steps)),
        entry_index(es, name) is None ==> begin_load_spec(run_spec(es, steps), name).0 == LookupV::Missing,
        entry_index(es, name) matches Some(i) ==> match es[i].1 {
            EntryV::Direct(v) => begin_load_spec(run_spec(es, steps), name).0 == LookupV::Loaded(v),
            EntryV::Source(source, host, state) => begin_load_spec(run_spec(es, steps), name).0
                == source_lookup(source, host, state_after(state, steps, name)),
        },
{
    lemma_run_follows(es, steps);
    let after = run_spec(es, steps);
    match entry_index(es, name) {
        None => {
            if entry_index(after, name) is Some {
                let j = entry_index(after, name)->Some_0;
                assert(es[j].0 == name);
            }
        },
        Some(i) => {
            lemma_index_at(es, i);
            lemma_index_at(after, i);
            assert(after[i].0 == name);
        },
    }
}

} // verus!
