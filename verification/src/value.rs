//! Runtime values of the language and their mathematical models.
use vstd::prelude::*;
use crate::error::{NativeResult, RuntimeError};
use crate::span::Span;
use crate::text::{nat_decimal, push_str, push_u64_decimal};

verus! {

/// A finite or non-finite floating-point number, held as its IEEE-754 binary64 bit pattern
/// together with its canonical visible rendering (for example `1.0`, `-0.0`, `12.5`).
#[derive(Clone, Debug)]
pub struct FloatRepr {
    pub bits: u64,
    pub text: String,
}

impl FloatRepr {
    pub fn new(bits: u64, text: String) -> (f: FloatRepr)
        ensures
            f.bits == bits,
            f.text@ == text@,
    {
        FloatRepr { bits, text }
    }

    pub fn copy(&self) -> (f: FloatRepr)
        ensures
            f.bits == self.bits,
            f.text@ == self.text@,
    {
        FloatRepr { bits: self.bits, text: self.text.clone() }
    }
}

/// An immutable byte string.
#[derive(Clone, Debug)]
pub struct Bytes {
    data: Vec<u8>,
}

impl View for Bytes {
    type V = Seq<u8>;

    closed spec fn view(&self) -> Seq<u8> {
        self.data@
    }
}

impl Bytes {
    pub fn new(data: Vec<u8>) -> (b: Bytes)
        ensures
            b@ == data@,
    {
        Bytes { data }
    }

    pub fn len(&self) -> (n: usize)
        ensures
            n == self@.len(),
    {
        self.data.len()
    }

    pub fn as_slice(&self) -> (s: &[u8])
        ensures
            s@ == self@,
    {
        self.data.as_slice()
    }

    pub fn get(&self, index: usize) -> (b: Option<u8>)
        ensures
            b == (if index < self@.len() { Some(self@[index as int]) } else { None::<u8> }),
    {
        if index < self.data.len() {
            Some(self.data[index])
        } else {
            None
        }
    }

    pub fn copy(&self) -> (b: Bytes)
        ensures
            b@ == self@,
    {
        let mut data: Vec<u8> = Vec::new();
        let mut i: usize = 0;
        while i < self.data.len()
            invariant
                i <= self.data@.len(),
                data@ == self.data@.subrange(0, i as int),
            decreases self.data@.len() - i,
        {
            data.push(self.data[i]);
            i = i + 1;
            assert(data@ =~= self.data@.subrange(0, i as int));
        }
        assert(data@ =~= self.data@);
        Bytes { data }
    }
}

/// A reference to a mutable list stored in a [`crate::heap::Heap`].
#[derive(Clone, Copy, Debug, PartialEq, Eq)]
pub struct ListRef {
    pub id: usize,
}

/// A reference to a mutable insertion-ordered map stored in a [`crate::heap::Heap`].
#[derive(Clone, Copy, Debug, PartialEq, Eq)]
pub struct MapRef {
    pub id: usize,
}

/// A host function value: its qualified name, its fixed arity, and the key under which the
/// embedder keeps the callback that carries it out.
#[derive(Clone, Debug)]
pub struct NativeFunction {
    pub name: String,
    pub arity: usize,
    pub callback: usize,
}

/// A runtime value. Lists and maps are references into a heap, so copies of such a value alias
/// the same container.
#[derive(Clone, Debug)]
pub enum Value {
    Nil,
    Bool(bool),
    Int(i64),
    Float(FloatRepr),
    String(String),
    Bytes(Bytes),
    List(ListRef),
    Table(MapRef),
    NativeFunction(NativeFunction),
}

/// Mathematical model of a [`Value`].
pub enum ValueV {
    Nil,
    Bool(bool),
    Int(i64),
    Float(u64, Seq<char>),
    String(Seq<char>),
    Bytes(Seq<u8>),
    List(usize),
    Table(usize),
    NativeFunction(Seq<char>, usize, usize),
}

impl View for Value {
    type V = ValueV;

    open spec fn view(&self) -> ValueV {
        match self {
            Value::Nil => ValueV::Nil,
            Value::Bool(b) => ValueV::Bool(*b),
            Value::Int(n) => ValueV::Int(*n),
            Value::Float(f) => ValueV::Float(f.bits, f.text@),
            Value::String(s) => ValueV::String(s@),
            Value::Bytes(b) => ValueV::Bytes(b@),
            Value::List(r) => ValueV::List(r.id),
            Value::Table(r) => ValueV::Table(r.id),
            Value::NativeFunction(f) => ValueV::NativeFunction(f.name@, f.arity, f.callback),
        }
    }
}

/// The models of a sequence of values.
pub open spec fn values_view(values: Seq<Value>) -> Seq<ValueV> {
    values.map_values(|v: Value| v@)
}

/// Name of the category of a value, as used in diagnostics and by `type`.
pub open spec fn kind_name_of(v: ValueV) -> Seq<char> {
    match v {
        ValueV::Nil => "nil"@,
        ValueV::Bool(_) => "boolean"@,
        ValueV::Int(_) => "integer"@,
        ValueV::Float(_, _) => "float"@,
        ValueV::String(_) => "string"@,
        ValueV::Bytes(_) => "bytes"@,
        ValueV::List(_) => "list"@,
        ValueV::Table(_) => "map"@,
        ValueV::NativeFunction(_, _, _) => "function"@,
    }
}

impl Value {
    /// A value equal in model to `self`; list and map references keep pointing at the same
    /// containers.
    pub fn copy(&self) -> (v: Value)
        ensures
            v@ == self@,
    {
        match self {
            Value::Nil => Value::Nil,
            Value::Bool(b) => Value::Bool(*b),
            Value::Int(n) => Value::Int(*n),
            Value::Float(f) => Value::Float(f.copy()),
            Value::String(s) => Value::String(s.clone()),
            Value::Bytes(b) => Value::Bytes(b.copy()),
            Value::List(r) => Value::List(ListRef { id: r.id }),
            Value::Table(r) => Value::Table(MapRef { id: r.id }),
            Value::NativeFunction(f) => Value::NativeFunction(
                NativeFunction { name: f.name.clone(), arity: f.arity, callback: f.callback },
            ),
        }
    }

    /// Name of the value's category.
    pub fn kind_name(&self) -> (name: &'static str)
        ensures
            name@ == kind_name_of(self@),
    {
        match self {
            Value::Nil => "nil",
            Value::Bool(_) => "boolean",
            Value::Int(_) => "integer",
            Value::Float(_) => "float",
            Value::String(_) => "string",
            Value::Bytes(_) => "bytes",
            Value::List(_) => "list",
            Value::Table(_) => "map",
            Value::NativeFunction(_) => "function",
        }
    }

    pub fn is_nil(&self) -> (b: bool)
        ensures
            b == (self@ is Nil),
    {
        match self {
            Value::Nil => true,
            _ => false,
        }
    }
}


/// A floating-point map key: a float that is not NaN and not an integer that fits `i64`
/// (such floats are keyed as integers).
#[derive(Clone, Debug)]
pub struct FloatKey {
    repr: FloatRepr,
}

impl FloatKey {
    pub closed spec fn bits(&self) -> u64 {
        self.repr.bits
    }

    pub closed spec fn text(&self) -> Seq<char> {
        self.repr.text@
    }

    pub fn repr(&self) -> (f: &FloatRepr)
        ensures
            f.bits == self.bits(),
            f.text@ == self.text(),
    {
        &self.repr
    }

    pub(crate) fn from_repr(repr: FloatRepr) -> (k: FloatKey)
        ensures
            k.bits() == repr.bits,
            k.text() == repr.text@,
    {
        FloatKey { repr }
    }
}

/// A map key. Keys compare by category and payload; float keys compare by bit pattern.
#[derive(Clone, Debug)]
pub enum MapKey {
    Int(i64),
    Float(FloatKey),
    String(String),
    Bool(bool),
}

/// Mathematical model of a [`MapKey`].
pub enum MapKeyV {
    Int(i64),
    Float(u64, Seq<char>),
    String(Seq<char>),
    Bool(bool),
}

impl View for MapKey {
    type V = MapKeyV;

    open spec fn view(&self) -> MapKeyV {
        match self {
            MapKey::Int(n) => MapKeyV::Int(*n),
            MapKey::Float(f) => MapKeyV::Float(f.bits(), f.text()),
            MapKey::String(s) => MapKeyV::String(s@),
            MapKey::Bool(b) => MapKeyV::Bool(*b),
        }
    }
}

/// Whether two keys denote the same entry.
pub open spec fn same_key(a: MapKeyV, b: MapKeyV) -> bool {
    match (a, b) {
        (MapKeyV::Int(x), MapKeyV::Int(y)) => x == y,
        (MapKeyV::Float(x, _), MapKeyV::Float(y, _)) => x == y,
        (MapKeyV::String(x), MapKeyV::String(y)) => x == y,
        (MapKeyV::Bool(x), MapKeyV::Bool(y)) => x == y,
        _ => false,
    }
}

/// The value a key stands for.
pub open spec fn key_value(k: MapKeyV) -> ValueV {
    match k {
        MapKeyV::Int(n) => ValueV::Int(n),
        MapKeyV::Float(bits, text) => ValueV::Float(bits, text),
        MapKeyV::String(s) => ValueV::String(s),
        MapKeyV::Bool(b) => ValueV::Bool(b),
    }
}

/// The models of a sequence of map entries.
pub open spec fn entries_view(entries: Seq<(MapKey, Value)>) -> Seq<(MapKeyV, ValueV)> {
    entries.map_values(|e: (MapKey, Value)| (e.0@, e.1@))
}

impl MapKey {
    pub fn copy(&self) -> (k: MapKey)
        ensures
            k@ == self@,
    {
        match self {
            MapKey::Int(n) => MapKey::Int(*n),
            MapKey::Float(f) => MapKey::Float(FloatKey { repr: f.repr.copy() }),
            MapKey::String(s) => MapKey::String(s.clone()),
            MapKey::Bool(b) => MapKey::Bool(*b),
        }
    }

    /// Whether `self` and `other` denote the same entry.
    pub fn matches(&self, other: &MapKey) -> (b: bool)
        ensures
            b == same_key(self@, other@),
    {
        match (self, other) {
            (MapKey::Int(x), MapKey::Int(y)) => *x == *y,
            (MapKey::Float(x), MapKey::Float(y)) => x.repr.bits == y.repr.bits,
            (MapKey::String(x), MapKey::String(y)) => *x == *y,
            (MapKey::Bool(x), MapKey::Bool(y)) => *x == *y,
            _ => false,
        }
    }

    /// The value this key stands for.
    pub fn to_value(&self) -> (v: Value)
        ensures
            v@ == key_value(self@),
    {
        match self {
            MapKey::Int(n) => Value::Int(*n),
            MapKey::Float(f) => Value::Float(f.repr.copy()),
            MapKey::String(s) => Value::String(s.clone()),
            MapKey::Bool(b) => Value::Bool(*b),
        }
    }
}

/// The diagnostic for calling a native function with the wrong number of arguments.
pub open spec fn native_arity_message(name: Seq<char>, arity: nat, got: nat) -> Seq<char> {
    "native function `"@ + name + "` expects "@ + nat_decimal(arity) + " arguments, got "@
        + nat_decimal(got)
}

impl NativeFunction {
    /// Calls the function: with a number of arguments other than its arity the call fails
    /// with a hard error at `span` and `callback` is not run; otherwise the result is what
    /// `callback`, the embedder's callback under the function's key, returns for the arguments.
    pub fn call<F: Fn(&[Value], Span) -> NativeResult>(
        &self,
        args: &[Value],
        span: Span,
        callback: F,
    ) -> (r: NativeResult)
        requires
            args@.len() == self.arity ==> callback.requires((args, span)),
        ensures
            args@.len() != self.arity ==> (r matches Err(e) && e.span == span && e.message@
                == native_arity_message(self.name@, self.arity as nat, args@.len())),
            args@.len() == self.arity ==> callback.ensures((args, span), r),
    {
        if args.len() != self.arity {
            let mut message = String::new();
            push_str(&mut message, "native function `");
            push_str(&mut message, self.name.as_str());
            push_str(&mut message, "` expects ");
            push_u64_decimal(&mut message, self.arity as u64);
            push_str(&mut message, " arguments, got ");
            push_u64_decimal(&mut message, args.len() as u64);
            proof {
                assert(message@ =~= native_arity_message(self.name@, self.arity as nat, args@.len()));
            }
            return Err(RuntimeError::new(span, message));
        }
        callback(args, span)
    }
}

/// A value with the spelling of a float forgotten.
pub open spec fn without_text(v: ValueV) -> ValueV {
    match v {
        ValueV::Float(bits, _) => ValueV::Float(bits, Seq::empty()),
        _ => v,
    }
}

/// Two map keys denote the same entry exactly when they stand for the same value (a float key
/// by its bits, whatever its spelling): distinct booleans, integers or strings are never the
/// same key, and every key is the same key as itself.
pub proof fn lemma_same_key_is_same_value(a: MapKeyV, b: MapKeyV)
    ensures
        same_key(a, b) <==> without_text(key_value(a)) == without_text(key_value(b)),
        same_key(a, a),
        same_key(MapKeyV::Bool(true), MapKeyV::Bool(false)) == false,
{
}

} // verus!
