//! Scopes of variable bindings. Environments live in an arena and are named by handles, so a
//! copied handle is the same environment. Each binding is a cell: every view that holds the cell
//! sees assignments through any other.
//!
//! An environment is a frame of its own bindings with up to two parents. A lexical parent is an
//! enclosing scope. A version parent is an earlier view of the same scope: a later view can
//! shadow a name without disturbing closures that captured the earlier view, while a name new to
//! the scope is installed in every earlier view too, so forward references keep working.
use vstd::prelude::*;
use crate::text::str_equal;
use crate::value::{Value, ValueV};

verus! {

/// A handle to an environment of an [`Environments`] arena.
#[derive(Clone, Copy, Debug, PartialEq, Eq)]
pub struct Environment {
    pub frame: usize,
}

/// The model of one frame: its bindings (the latest binding of a name wins), and its parents.
pub struct FrameV {
    pub values: Seq<(Seq<char>, usize)>,
    pub version_parent: Option<usize>,
    pub lexical_parent: Option<usize>,
}

/// The model of an arena: its frames and the contents of its cells.
pub struct EnvironmentsV {
    pub frames: Seq<FrameV>,
    pub cells: Seq<ValueV>,
}

/// All frames and binding cells of a program run.
#[derive(Debug)]
pub struct Environments {
    values: Vec<Vec<(String, usize)>>,
    version_parents: Vec<Option<usize>>,
    lexical_parents: Vec<Option<usize>>,
    cells: Vec<Value>,
}

/// The model of a frame's own bindings.
pub open spec fn bindings_view(values: Seq<(String, usize)>) -> Seq<(Seq<char>, usize)> {
    values.map_values(|p: (String, usize)| (p.0@, p.1))
}

impl View for Environments {
    type V = EnvironmentsV;

    closed spec fn view(&self) -> EnvironmentsV {
        EnvironmentsV {
            frames: Seq::new(
                self.values@.len(),
                |f: int|
                    FrameV {
                        values: bindings_view(self.values@[f]@),
                        version_parent: self.version_parents@[f],
                        lexical_parent: self.lexical_parents@[f],
                    },
            ),
            cells: self.cells@.map_values(|v: Value| v@),
        }
    }
}

/// The cell a frame's own bindings give a name, the latest binding first.
pub open spec fn local(values: Seq<(Seq<char>, usize)>, name: Seq<char>) -> Option<usize>
    decreases values.len(),
{
    if values.len() == 0 {
        None
    } else if values.last().0 == name {
        Some(values.last().1)
    } else {
        local(values.drop_last(), name)
    }
}

/// The cell a name is bound to in frame `f`: its own bindings, then those its earlier views
/// see, then those of its enclosing scope.
pub open spec fn binding(e: EnvironmentsV, f: usize, name: Seq<char>) -> Option<usize>
    decreases f,
{
    if f >= e.frames.len() {
        None
    } else {
        let frame = e.frames[f as int];
        match local(frame.values, name) {
            Some(c) => Some(c),
            None => {
                let earlier = match frame.version_parent {
                    Some(p) => if p < f { binding(e, p, name) } else { None },
                    None => None,
                };
                match earlier {
                    Some(c) => Some(c),
                    None => match frame.lexical_parent {
                        Some(p) => if p < f { binding(e, p, name) } else { None },
                        None => None,
                    },
                }
            },
        }
    }
}

/// The value a name has in frame `f`.
pub open spec fn lookup(e: EnvironmentsV, f: usize, name: Seq<char>) -> Option<ValueV> {
    match binding(e, f, name) {
        Some(c) => Some(e.cells[c as int]),
        None => None,
    }
}

/// Whether frame `g` is frame `f` or one of its earlier views.
pub open spec fn in_version_chain(e: EnvironmentsV, f: usize, g: usize) -> bool
    decreases f,
{
    f == g || match e.frames[f as int].version_parent {
        Some(p) => p < f && in_version_chain(e, p, g),
        None => false,
    }
}

/// Whether a name is bound in the current scope of frame `f`: by the frame or an earlier view,
/// not by an enclosing scope.
pub open spec fn bound_in_scope(e: EnvironmentsV, f: usize, name: Seq<char>) -> bool
    decreases f,
{
    local(e.frames[f as int].values, name) is Some || match e.frames[f as int].version_parent {
        Some(p) => p < f && bound_in_scope(e, p, name),
        None => false,
    }
}

/// An arena whose parents come before their children and whose bindings name existing cells.
pub open spec fn well_formed(e: EnvironmentsV) -> bool {
    &&& forall|f: int| 0 <= f < e.frames.len() ==> match (#[trigger] e.frames[f]).version_parent {
        Some(p) => p < f,
        None => true,
    }
    &&& forall|f: int| 0 <= f < e.frames.len() ==> match (#[trigger] e.frames[f]).lexical_parent {
        Some(p) => p < f,
        None => true,
    }
    &&& forall|f: int, k: int| 0 <= f < e.frames.len() && 0 <= k < e.frames[f].values.len()
        ==> #[trigger] e.frames[f].values[k].1 < e.cells.len()
}

/// A frame with one more binding.
pub open spec fn with_binding(frame: FrameV, name: Seq<char>, cell: usize) -> FrameV {
    FrameV {
        values: frame.values.push((name, cell)),
        version_parent: frame.version_parent,
        lexical_parent: frame.lexical_parent,
    }
}

/// A new frame with the given parents.
pub open spec fn new_frame(e: EnvironmentsV, version_parent: Option<usize>, lexical_parent: Option<usize>) -> EnvironmentsV {
    EnvironmentsV {
        frames: e.frames.push(FrameV { values: Seq::empty(), version_parent, lexical_parent }),
        cells: e.cells,
    }
}

/// A new cell holding `v` bound to `name` in frame `f` and in all its earlier views.
pub open spec fn define_fresh_spec(e: EnvironmentsV, f: usize, name: Seq<char>, v: ValueV) -> EnvironmentsV {
    EnvironmentsV {
        frames: Seq::new(
            e.frames.len(),
            |g: int|
                if in_version_chain(e, f, g as usize) {
                    with_binding(e.frames[g], name, e.cells.len() as usize)
                } else {
                    e.frames[g]
                },
        ),
        cells: e.cells.push(v),
    }
}

/// A new cell holding `v` bound to `name` in frame `f` only.
pub open spec fn define_shadow_spec(e: EnvironmentsV, f: usize, name: Seq<char>, v: ValueV) -> EnvironmentsV {
    EnvironmentsV {
        frames: e.frames.update(f as int, with_binding(e.frames[f as int], name, e.cells.len() as usize)),
        cells: e.cells.push(v),
    }
}

/// `v` stored in the cell frame `f` itself binds `name` to, or in a new cell bound there.
pub open spec fn define_spec(e: EnvironmentsV, f: usize, name: Seq<char>, v: ValueV) -> EnvironmentsV {
    match local(e.frames[f as int].values, name) {
        Some(c) => EnvironmentsV { frames: e.frames, cells: e.cells.update(c as int, v) },
        None => define_shadow_spec(e, f, name, v),
    }
}

/// `v` stored in the cell `name` is bound to from frame `f`, when it is bound.
pub open spec fn assign_spec(e: EnvironmentsV, f: usize, name: Seq<char>, v: ValueV) -> EnvironmentsV {
    match binding(e, f, name) {
        Some(c) => EnvironmentsV { frames: e.frames, cells: e.cells.update(c as int, v) },
        None => e,
    }
}

/// A frame's own binding names an existing cell.
proof fn lemma_local_in_range(e: EnvironmentsV, f: int, values: Seq<(Seq<char>, usize)>, name: Seq<char>)
    requires
        well_formed(e),
        0 <= f < e.frames.len(),
        values.len() <= e.frames[f].values.len(),
        values == e.frames[f].values.take(values.len() as int),
    ensures
        local(values, name) matches Some(c) ==> c < e.cells.len(),
    decreases values.len(),
{
    if values.len() > 0 {
        let k = values.len() - 1;
        assert(values.last() == e.frames[f].values[k]);
        if values.last().0 != name {
            assert(values.drop_last() == e.frames[f].values.take(k));
            lemma_local_in_range(e, f, values.drop_last(), name);
        }
    }
}

/// Every binding names an existing cell.
pub proof fn lemma_binding_in_range(e: EnvironmentsV, f: usize, name: Seq<char>)
    requires
        well_formed(e),
    ensures
        binding(e, f, name) matches Some(c) ==> c < e.cells.len(),
    decreases f,
{
    if f < e.frames.len() {
        let frame = e.frames[f as int];
        assert(frame.values == frame.values.take(frame.values.len() as int));
        lemma_local_in_range(e, f as int, frame.values, name);
        if let Some(p) = frame.version_parent {
            if p < f {
                lemma_binding_in_range(e, p, name);
            }
        }
        if let Some(p) = frame.lexical_parent {
            if p < f {
                lemma_binding_in_range(e, p, name);
            }
        }
    }
}

/// A frame's earlier views come no later than itself.
proof fn lemma_chain_bounded(e: EnvironmentsV, f: usize, g: usize)
    ensures
        in_version_chain(e, f, g) ==> g <= f,
    decreases f,
{
    if let Some(p) = e.frames[f as int].version_parent {
        if p < f {
            lemma_chain_bounded(e, p, g);
        }
    }
}

/// Version chains depend on the version parents alone.
proof fn lemma_chain_same_parents(e1: EnvironmentsV, e2: EnvironmentsV, f: usize, g: usize)
    requires
        e1.frames.len() == e2.frames.len(),
        f < e1.frames.len(),
        forall|h: int| 0 <= h < e1.frames.len() ==> #[trigger] e1.frames[h].version_parent
            == e2.frames[h].version_parent,
    ensures
        in_version_chain(e1, f, g) == in_version_chain(e2, f, g),
    decreases f,
{
    assert(e1.frames[f as int].version_parent == e2.frames[f as int].version_parent);
    if let Some(p) = e1.frames[f as int].version_parent {
        if p < f {
            lemma_chain_same_parents(e1, e2, p, g);
        }
    }
}

/// Bindings seen from frame `f` depend only on frames `0..=f`.
proof fn lemma_binding_prefix(e1: EnvironmentsV, e2: EnvironmentsV, f: usize, name: Seq<char>)
    requires
        f < e1.frames.len(),
        f < e2.frames.len(),
        forall|h: int| 0 <= h <= f ==> #[trigger] e1.frames[h] == e2.frames[h],
    ensures
        binding(e1, f, name) == binding(e2, f, name),
    decreases f,
{
    assert(e1.frames[f as int] == e2.frames[f as int]);
    let frame = e1.frames[f as int];
    if let Some(p) = frame.version_parent {
        if p < f {
            lemma_binding_prefix(e1, e2, p, name);
        }
    }
    if let Some(p) = frame.lexical_parent {
        if p < f {
            lemma_binding_prefix(e1, e2, p, name);
        }
    }
}

/// The latest binding of a name in a frame is the one just pushed.
proof fn lemma_local_push(values: Seq<(Seq<char>, usize)>, name: Seq<char>, cell: usize, other: Seq<char>)
    ensures
        local(values.push((name, cell)), name) == Some(cell),
        other != name ==> local(values.push((name, cell)), other) == local(values, other),
{
    assert(values.push((name, cell)).drop_last() =~= values);
}

/// A name installed fresh in a scope is visible, with its value, from the view it was installed
/// in and from every earlier view of the same scope.
pub proof fn lemma_fresh_name_visible(e: EnvironmentsV, f: usize, g: usize, name: Seq<char>, v: ValueV)
    requires
        well_formed(e),
        e.cells.len() < usize::MAX,
        f < e.frames.len(),
        g < e.frames.len(),
        in_version_chain(e, f, g),
    ensures
        lookup(define_fresh_spec(e, f, name, v), g, name) == Some(v),
{
    let e2 = define_fresh_spec(e, f, name, v);
    assert(e2.frames[g as int] == with_binding(e.frames[g as int], name, e.cells.len() as usize));
    lemma_local_push(e.frames[g as int].values, name, e.cells.len() as usize, name);
}

/// Installing a name in a scope that is not a later view of another leaves everything seen from
/// the environments created before it unchanged.
pub proof fn lemma_fresh_name_stays_in_scope(
    e: EnvironmentsV,
    f: usize,
    g: usize,
    name: Seq<char>,
    v: ValueV,
    other: Seq<char>,
)
    requires
        well_formed(e),
        f < e.frames.len(),
        e.frames[f as int].version_parent is None,
        g < f,
    ensures
        lookup(define_fresh_spec(e, f, name, v), g, other) == lookup(e, g, other),
{
    let e2 = define_fresh_spec(e, f, name, v);
    assert forall|h: int| 0 <= h <= g implies #[trigger] e2.frames[h] == e.frames[h] by {
        lemma_chain_bounded(e, f, h as usize);
        if in_version_chain(e, f, h as usize) {
            assert(h as usize == f);
        }
    }
    lemma_binding_prefix(e2, e, g, other);
    lemma_binding_in_range(e, g, other);
}

/// A shadowing binding is seen from its own view and leaves everything seen from the
/// environments created before that view unchanged.
pub proof fn lemma_shadow_stays_in_view(
    e: EnvironmentsV,
    f: usize,
    g: usize,
    name: Seq<char>,
    v: ValueV,
    other: Seq<char>,
)
    requires
        well_formed(e),
        e.cells.len() < usize::MAX,
        f < e.frames.len(),
        g < f,
    ensures
        lookup(define_shadow_spec(e, f, name, v), f, name) == Some(v),
        lookup(define_shadow_spec(e, f, name, v), g, other) == lookup(e, g, other),
{
    let e2 = define_shadow_spec(e, f, name, v);
    lemma_local_push(e.frames[f as int].values, name, e.cells.len() as usize, name);
    assert forall|h: int| 0 <= h <= g implies #[trigger] e2.frames[h] == e.frames[h] by {}
    lemma_binding_prefix(e2, e, g, other);
    lemma_binding_in_range(e, g, other);
}

/// An assignment is seen through every environment that reaches the same cell, under any name,
/// and nothing else changes.
pub proof fn lemma_assignment_shared(
    e: EnvironmentsV,
    f: usize,
    name: Seq<char>,
    v: ValueV,
    g: usize,
    other: Seq<char>,
)
    requires
        well_formed(e),
        f < e.frames.len(),
        binding(e, f, name) is Some,
    ensures
        binding(e, g, other) == binding(e, f, name) ==> lookup(assign_spec(e, f, name, v), g, other)
            == Some(v),
        binding(e, g, other) != binding(e, f, name) ==> lookup(assign_spec(e, f, name, v), g, other)
            == lookup(e, g, other),
{
    let e2 = assign_spec(e, f, name, v);
    lemma_binding_in_range(e, f, name);
    lemma_binding_in_range(e, g, other);
    assert(e2.frames == e.frames);
    if g < e.frames.len() {
        assert forall|h: int| 0 <= h <= g implies #[trigger] e2.frames[h] == e.frames[h] by {}
        lemma_binding_prefix(e2, e, g, other);
    }
}

impl Environments {
    /// The model of the arena.
    pub closed spec fn wf(&self) -> bool {
        &&& self.version_parents@.len() == self.values@.len()
        &&& self.lexical_parents@.len() == self.values@.len()
        &&& well_formed(self@)
    }

    /// An arena without environments.
    pub fn new() -> (r: Environments)
        ensures
            r.wf(),
            r@.frames.len() == 0,
            r@.cells.len() == 0,
    {
        let r = Environments {
            values: Vec::new(),
            version_parents: Vec::new(),
            lexical_parents: Vec::new(),
            cells: Vec::new(),
        };
        proof {
            assert(r@.cells =~= Seq::<ValueV>::empty());
        }
        r
    }

    /// Whether a handle names an environment of this arena.
    pub open spec fn has(&self, env: Environment) -> bool {
        env.frame < self@.frames.len()
    }

    fn push_frame(&mut self, version_parent: Option<usize>, lexical_parent: Option<usize>) -> (r: Environment)
        requires
            old(self).wf(),
            version_parent matches Some(p) ==> p < old(self)@.frames.len(),
            lexical_parent matches Some(p) ==> p < old(self)@.frames.len(),
        ensures
            final(self).wf(),
            final(self)@ == new_frame(old(self)@, version_parent, lexical_parent),
            r.frame == old(self)@.frames.len(),
    {
        let frame = self.values.len();
        self.values.push(Vec::new());
        self.version_parents.push(version_parent);
        self.lexical_parents.push(lexical_parent);
        proof {
            let e = new_frame(old(self)@, version_parent, lexical_parent);
            assert(bindings_view(Seq::<(String, usize)>::empty()) =~= Seq::<(Seq<char>, usize)>::empty());
            assert(self@.frames =~= e.frames);
            assert(self@.cells =~= e.cells);
        }
        Environment { frame }
    }

    /// A new top-level environment.
    pub fn root(&mut self) -> (r: Environment)
        requires
            old(self).wf(),
        ensures
            final(self).wf(),
            final(self)@ == new_frame(old(self)@, None, None),
            r.frame == old(self)@.frames.len(),
    {
        self.push_frame(None, None)
    }

    /// A genuine nested scope of `env`.
    pub fn child(&mut self, env: Environment) -> (r: Environment)
        requires
            old(self).wf(),
            old(self).has(env),
        ensures
            final(self).wf(),
            final(self)@ == new_frame(old(self)@, None, Some(env.frame)),
            r.frame == old(self)@.frames.len(),
    {
        self.push_frame(None, Some(env.frame))
    }

    /// A later view of the scope of `env`: names shadowed in it stay hidden from `env`, and
    /// names new to the scope reach `env` too.
    pub fn shadow_view(&mut self, env: Environment) -> (r: Environment)
        requires
            old(self).wf(),
            old(self).has(env),
        ensures
            final(self).wf(),
            final(self)@ == new_frame(old(self)@, Some(env.frame), None),
            r.frame == old(self)@.frames.len(),
    {
        self.push_frame(Some(env.frame), None)
    }

    /// The cell frame `f` itself binds `name` to.
    fn local_cell(&self, f: usize, name: &str) -> (r: Option<usize>)
        requires
            self.wf(),
            f < self@.frames.len(),
        ensures
            r == local(self@.frames[f as int].values, name@),
    {
        let values = &self.values[f];
        let ghost view = bindings_view(values@);
        assert(view == self@.frames[f as int].values);
        let mut i = values.len();
        assert(view.take(i as int) =~= view);
        while i > 0
            invariant
                i <= values@.len() == view.len(),
                view == bindings_view(values@),
                view == self@.frames[f as int].values,
                local(view.take(i as int), name@) == local(view, name@),
            decreases i,
        {
            let ghost prefix = view.take(i as int);
            assert(prefix.last() == view[i - 1]);
            assert(view[i - 1] == (values@[i - 1].0@, values@[i - 1].1));
            assert(prefix.drop_last() =~= view.take(i - 1));
            if str_equal(values[i - 1].0.as_str(), name) {
                return Some(values[i - 1].1);
            }
            i = i - 1;
        }
        assert(view.take(0) =~= Seq::<(Seq<char>, usize)>::empty());
        None
    }

    /// The cell `name` is bound to as seen from frame `f`.
    fn binding_cell(&self, f: usize, name: &str) -> (r: Option<usize>)
        requires
            self.wf(),
            f < self@.frames.len(),
        ensures
            r == binding(self@, f, name@),
        decreases f,
    {
        let ghost frame = self@.frames[f as int];
        assert(frame.version_parent == self.version_parents@[f as int]);
        assert(frame.lexical_parent == self.lexical_parents@[f as int]);
        if let Some(c) = self.local_cell(f, name) {
            return Some(c);
        }
        if let Some(p) = self.version_parents[f] {
            if let Some(c) = self.binding_cell(p, name) {
                return Some(c);
            }
        }
        match self.lexical_parents[f] {
            Some(p) => self.binding_cell(p, name),
            None => None,
        }
    }

    /// The value of `name` as seen from `env`.
    pub fn get(&self, env: Environment, name: &str) -> (r: Option<Value>)
        requires
            self.wf(),
            self.has(env),
        ensures
            match r {
                Some(v) => lookup(self@, env.frame, name@) == Some(v@),
                None => lookup(self@, env.frame, name@) is None,
            },
    {
        proof {
            lemma_binding_in_range(self@, env.frame, name@);
        }
        match self.binding_cell(env.frame, name) {
            Some(c) => Some(self.cells[c].copy()),
            None => None,
        }
    }

    /// Stores `value` in the cell `name` is bound to as seen from `env`; false when the name is
    /// not bound.
    pub fn assign(&mut self, env: Environment, name: &str, value: Value) -> (r: bool)
        requires
            old(self).wf(),
            old(self).has(env),
        ensures
            final(self).wf(),
            r == binding(old(self)@, env.frame, name@) is Some,
            final(self)@ == assign_spec(old(self)@, env.frame, name@, value@),
    {
        proof {
            lemma_binding_in_range(self@, env.frame, name@);
        }
        match self.binding_cell(env.frame, name) {
            Some(c) => {
                self.cells.set(c, value);
                proof {
                    let e = assign_spec(old(self)@, env.frame, name@, value@);
                    assert(self@.cells =~= e.cells);
                    assert(self@.frames =~= e.frames);
                }
                true
            },
            None => false,
        }
    }

    /// Appends a binding of `name` to `cell` in frame `f`.
    fn push_binding(&mut self, f: usize, name: &str, cell: usize)
        requires
            old(self).wf(),
            f < old(self)@.frames.len(),
            cell < old(self)@.cells.len(),
        ensures
            final(self).wf(),
            final(self)@ == (EnvironmentsV {
                frames: old(self)@.frames.update(f as int, with_binding(old(self)@.frames[f as int], name@, cell)),
                cells: old(self)@.cells,
            }),
    {
        let mut values: Vec<(String, usize)> = Vec::new();
        self.values.set_and_swap(f, &mut values);
        values.push((name.to_string(), cell));
        self.values.set(f, values);
        proof {
            let e = EnvironmentsV {
                frames: old(self)@.frames.update(f as int, with_binding(old(self)@.frames[f as int], name@, cell)),
                cells: old(self)@.cells,
            };
            assert(bindings_view(values@) =~= old(self)@.frames[f as int].values.push((name@, cell)));
            assert(self@.frames =~= e.frames);
            assert(self@.cells =~= e.cells);
            assert forall|g: int, k: int| 0 <= g < e.frames.len() && 0 <= k < e.frames[g].values.len()
                implies #[trigger] e.frames[g].values[k].1 < e.cells.len() by {
                if g == f && k < old(self)@.frames[f as int].values.len() {
                    assert(e.frames[g].values[k] == old(self)@.frames[g].values[k]);
                }
            }
        }
    }

    /// Stores a value in a new cell.
    fn push_cell(&mut self, value: Value) -> (c: usize)
        requires
            old(self).wf(),
        ensures
            final(self).wf(),
            final(self)@ == (EnvironmentsV { frames: old(self)@.frames, cells: old(self)@.cells.push(value@) }),
            c == old(self)@.cells.len(),
    {
        let c = self.cells.len();
        self.cells.push(value);
        proof {
            assert(self@.cells =~= old(self)@.cells.push(value@));
            assert(self@.frames =~= old(self)@.frames);
        }
        c
    }

    /// Binds `name` to `cell` in frame `f` and in all its earlier views.
    fn backfill(&mut self, f: usize, name: &str, cell: usize)
        requires
            old(self).wf(),
            f < old(self)@.frames.len(),
            cell < old(self)@.cells.len(),
        ensures
            final(self).wf(),
            final(self)@.cells == old(self)@.cells,
            final(self)@.frames == Seq::new(
                old(self)@.frames.len(),
                |g: int|
                    if in_version_chain(old(self)@, f, g as usize) {
                        with_binding(old(self)@.frames[g], name@, cell)
                    } else {
                        old(self)@.frames[g]
                    },
            ),
        decreases f,
    {
        let ghost before = self@;
        let frame_count = self.values.len();
        assert(before.frames.len() == frame_count);
        assert(before.frames[f as int].version_parent == self.version_parents@[f as int]);
        let version_parent = self.version_parents[f];
        self.push_binding(f, name, cell);
        let ghost middle = self@;
        match version_parent {
            Some(p) => {
                assert(p < f);
                self.backfill(p, name, cell);
                proof {
                    assert forall|h: int| 0 <= h < before.frames.len() implies #[trigger] middle.frames[h].version_parent
                        == before.frames[h].version_parent by {
                        if h == f {
                            assert(middle.frames[h] == with_binding(before.frames[h], name@, cell));
                        } else {
                            assert(middle.frames[h] == before.frames[h]);
                        }
                    }
                    assert(before.frames[f as int].version_parent == Some(p));
                    assert forall|g: int| 0 <= g < before.frames.len() implies #[trigger] self@.frames[g]
                        == (if in_version_chain(before, f, g as usize) {
                        with_binding(before.frames[g], name@, cell)
                    } else {
                        before.frames[g]
                    }) by {
                        assert((g as usize) as int == g);
                        lemma_chain_same_parents(middle, before, p, g as usize);
                        lemma_chain_bounded(before, p, g as usize);
                        assert(in_version_chain(before, f, g as usize) == (f == g as usize || in_version_chain(before, p, g as usize)));
                        assert(self@.frames[g] == if in_version_chain(middle, p, g as usize) {
                            with_binding(middle.frames[g], name@, cell)
                        } else {
                            middle.frames[g]
                        });
                        if g == f {
                            assert(!in_version_chain(middle, p, g as usize));
                            assert(self@.frames[g] == middle.frames[g]);
                        } else {
                            assert(middle.frames[g] == before.frames[g]);
                        }
                    }
                    assert(self@.frames =~= Seq::new(
                        before.frames.len(),
                        |g: int|
                            if in_version_chain(before, f, g as usize) {
                                with_binding(before.frames[g], name@, cell)
                            } else {
                                before.frames[g]
                            },
                    ));
                }
            },
            None => {
                proof {
                    assert(self@.frames =~= Seq::new(
                        before.frames.len(),
                        |g: int|
                            if in_version_chain(before, f, g as usize) {
                                with_binding(before.frames[g], name@, cell)
                            } else {
                                before.frames[g]
                            },
                    ));
                }
            },
        }
    }

    /// Installs a name new to the scope of `env`, in a new cell that every earlier view of the
    /// scope shares.
    pub fn define_fresh(&mut self, env: Environment, name: &str, value: Value)
        requires
            old(self).wf(),
            old(self).has(env),
        ensures
            final(self).wf(),
            final(self)@ == define_fresh_spec(old(self)@, env.frame, name@, value@),
    {
        let c = self.push_cell(value);
        let ghost middle = self@;
        self.backfill(env.frame, name, c);
        proof {
            let e = define_fresh_spec(old(self)@, env.frame, name@, value@);
            assert forall|g: int| 0 <= g < e.frames.len() implies #[trigger] self@.frames[g] == e.frames[g] by {
                lemma_chain_same_parents(middle, old(self)@, env.frame, g as usize);
            }
            assert(self@.frames =~= e.frames);
        }
    }

    /// Installs a new binding version of `name` in `env` only.
    pub fn define_shadow(&mut self, env: Environment, name: &str, value: Value)
        requires
            old(self).wf(),
            old(self).has(env),
        ensures
            final(self).wf(),
            final(self)@ == define_shadow_spec(old(self)@, env.frame, name@, value@),
    {
        let c = self.push_cell(value);
        self.push_binding(env.frame, name, c);
    }

    /// Defines or replaces a binding in the own frame of `env`: a name the frame already binds
    /// keeps its cell, which receives the value.
    pub fn define(&mut self, env: Environment, name: &str, value: Value)
        requires
            old(self).wf(),
            old(self).has(env),
        ensures
            final(self).wf(),
            final(self)@ == define_spec(old(self)@, env.frame, name@, value@),
    {
        let ghost frame = self@.frames[env.frame as int];
        proof {
            assert(frame.values == frame.values.take(frame.values.len() as int));
            lemma_local_in_range(self@, env.frame as int, frame.values, name@);
        }
        match self.local_cell(env.frame, name) {
            Some(c) => {
                self.cells.set(c, value);
                proof {
                    let e = define_spec(old(self)@, env.frame, name@, value@);
                    assert(self@.cells =~= e.cells);
                    assert(self@.frames =~= e.frames);
                }
            },
            None => self.define_shadow(env, name, value),
        }
    }

    /// Whether `name` is bound in the current scope of `env`, by it or an earlier view.
    pub fn contains_current(&self, env: Environment, name: &str) -> (r: bool)
        requires
            self.wf(),
            self.has(env),
        ensures
            r == bound_in_scope(self@, env.frame, name@),
        decreases env.frame,
    {
        assert(self@.frames[env.frame as int].version_parent == self.version_parents@[env.frame as int]);
        if self.local_cell(env.frame, name).is_some() {
            return true;
        }
        match self.version_parents[env.frame] {
            Some(p) => self.contains_current(Environment { frame: p }, name),
            None => false,
        }
    }
}

} // verus!
