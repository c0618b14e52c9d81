//! The store of mutable containers. Values refer to lists and maps by index into a heap, so
//! every copy of a list or map value aliases the same container.
use vstd::prelude::*;
use crate::value::{entries_view, values_view, ListRef, MapKey, MapKeyV, MapRef, Value, ValueV};

verus! {

/// Mutable lists and insertion-ordered maps, addressed by [`ListRef`] and [`MapRef`].
#[derive(Debug)]
pub struct Heap {
    lists: Vec<Vec<Value>>,
    maps: Vec<Vec<(MapKey, Value)>>,
}

/// Mathematical model of a [`Heap`]: the contents of every list and every map.
#[verifier::ext_equal]
pub struct HeapV {
    pub lists: Seq<Seq<ValueV>>,
    pub maps: Seq<Seq<(MapKeyV, ValueV)>>,
}

impl View for Heap {
    type V = HeapV;

    closed spec fn view(&self) -> HeapV {
        HeapV {
            lists: self.lists@.map_values(|l: Vec<Value>| values_view(l@)),
            maps: self.maps@.map_values(|m: Vec<(MapKey, Value)>| entries_view(m@)),
        }
    }
}

impl HeapV {
    /// Whether `v` refers to a list of this heap.
    pub open spec fn has_list(self, id: usize) -> bool {
        id < self.lists.len()
    }

    /// Whether `v` refers to a map of this heap.
    pub open spec fn has_map(self, id: usize) -> bool {
        id < self.maps.len()
    }
}

impl Heap {
    pub fn new() -> (heap: Heap)
        ensures
            heap@.lists.len() == 0,
            heap@.maps.len() == 0,
    {
        let heap = Heap { lists: Vec::new(), maps: Vec::new() };
        proof {
            assert(heap@.lists =~= Seq::<Seq<ValueV>>::empty());
            assert(heap@.maps =~= Seq::<Seq<(MapKeyV, ValueV)>>::empty());
        }
        heap
    }

    /// Stores a new list and returns a reference to it.
    pub fn alloc_list(&mut self, values: Vec<Value>) -> (r: ListRef)
        ensures
            r.id == old(self)@.lists.len(),
            old(self)@.lists.len() < usize::MAX,
            final(self)@.lists == old(self)@.lists.push(values_view(values@)),
            final(self)@.maps == old(self)@.maps,
    {
        let id = self.lists.len();
        let ghost before = self.lists@;
        self.lists.push(values);
        let count = self.lists.len();
        assert(count == id + 1);
        proof {
            assert(self.lists@ == before.push(values));
            assert(self@.lists =~= old(self)@.lists.push(values_view(values@)));
            assert(self@.maps =~= old(self)@.maps);
        }
        ListRef { id }
    }

    /// Stores a new list and returns it as a value.
    pub fn list(&mut self, values: Vec<Value>) -> (v: Value)
        ensures
            v@ == ValueV::List(old(self)@.lists.len() as usize),
            old(self)@.lists.len() < usize::MAX,
            final(self)@.lists[old(self)@.lists.len() as int] == values_view(values@),
            final(self)@.lists == old(self)@.lists.push(values_view(values@)),
            final(self)@.maps == old(self)@.maps,
    {
        Value::List(self.alloc_list(values))
    }

    /// Stores a new map and returns a reference to it.
    pub fn alloc_map(&mut self, entries: Vec<(MapKey, Value)>) -> (r: MapRef)
        ensures
            r.id == old(self)@.maps.len(),
            old(self)@.maps.len() < usize::MAX,
            final(self)@.maps == old(self)@.maps.push(entries_view(entries@)),
            final(self)@.lists == old(self)@.lists,
    {
        let id = self.maps.len();
        let ghost before = self.maps@;
        self.maps.push(entries);
        let count = self.maps.len();
        assert(count == id + 1);
        proof {
            assert(self.maps@ == before.push(entries));
            assert(self@.maps =~= old(self)@.maps.push(entries_view(entries@)));
            assert(self@.lists =~= old(self)@.lists);
        }
        MapRef { id }
    }

    /// Stores a new map and returns it as a value.
    pub fn map(&mut self, entries: Vec<(MapKey, Value)>) -> (v: Value)
        ensures
            v@ == ValueV::Table(old(self)@.maps.len() as usize),
            old(self)@.maps.len() < usize::MAX,
            final(self)@.maps[old(self)@.maps.len() as int] == entries_view(entries@),
            final(self)@.maps == old(self)@.maps.push(entries_view(entries@)),
            final(self)@.lists == old(self)@.lists,
    {
        Value::Table(self.alloc_map(entries))
    }

    pub fn list_count(&self) -> (n: usize)
        ensures
            n == self@.lists.len(),
    {
        self.lists.len()
    }

    pub fn map_count(&self) -> (n: usize)
        ensures
            n == self@.maps.len(),
    {
        self.maps.len()
    }

    pub fn has_list(&self, r: ListRef) -> (b: bool)
        ensures
            b == self@.has_list(r.id),
    {
        r.id < self.lists.len()
    }

    pub fn has_map(&self, r: MapRef) -> (b: bool)
        ensures
            b == self@.has_map(r.id),
    {
        r.id < self.maps.len()
    }

    /// The elements of a list.
    pub fn list_values(&self, r: ListRef) -> (values: &Vec<Value>)
        requires
            self@.has_list(r.id),
        ensures
            values_view(values@) == self@.lists[r.id as int],
    {
        &self.lists[r.id]
    }

    /// The entries of a map, in insertion order.
    pub fn map_entries(&self, r: MapRef) -> (entries: &Vec<(MapKey, Value)>)
        requires
            self@.has_map(r.id),
        ensures
            entries_view(entries@) == self@.maps[r.id as int],
    {
        &self.maps[r.id]
    }

    /// Moves the elements of a list out, leaving it empty until [`Heap::put_list`].
    pub fn take_list(&mut self, r: ListRef) -> (values: Vec<Value>)
        requires
            old(self)@.has_list(r.id),
        ensures
            values_view(values@) == old(self)@.lists[r.id as int],
            final(self)@.lists == old(self)@.lists.update(r.id as int, Seq::empty()),
            final(self)@.maps == old(self)@.maps,
    {
        let mut values: Vec<Value> = Vec::new();
        self.lists.set_and_swap(r.id, &mut values);
        proof {
            assert(values_view(Seq::<Value>::empty()) =~= Seq::<ValueV>::empty());
            assert(self@.lists =~= old(self)@.lists.update(r.id as int, Seq::empty()));
            assert(self@.maps =~= old(self)@.maps);
        }
        values
    }

    /// Replaces the elements of a list.
    pub fn put_list(&mut self, r: ListRef, values: Vec<Value>)
        requires
            old(self)@.has_list(r.id),
        ensures
            final(self)@.lists == old(self)@.lists.update(r.id as int, values_view(values@)),
            final(self)@.maps == old(self)@.maps,
    {
        self.lists.set(r.id, values);
        proof {
            assert(self@.lists =~= old(self)@.lists.update(r.id as int, values_view(values@)));
            assert(self@.maps =~= old(self)@.maps);
        }
    }

    /// Moves the entries of a map out, leaving it empty until [`Heap::put_map`].
    pub fn take_map(&mut self, r: MapRef) -> (entries: Vec<(MapKey, Value)>)
        requires
            old(self)@.has_map(r.id),
        ensures
            entries_view(entries@) == old(self)@.maps[r.id as int],
            final(self)@.maps == old(self)@.maps.update(r.id as int, Seq::empty()),
            final(self)@.lists == old(self)@.lists,
    {
        let mut entries: Vec<(MapKey, Value)> = Vec::new();
        self.maps.set_and_swap(r.id, &mut entries);
        proof {
            assert(entries_view(Seq::<(MapKey, Value)>::empty()) =~= Seq::<(MapKeyV, ValueV)>::empty());
            assert(self@.maps =~= old(self)@.maps.update(r.id as int, Seq::empty()));
            assert(self@.lists =~= old(self)@.lists);
        }
        entries
    }

    /// Replaces the entries of a map.
    pub fn put_map(&mut self, r: MapRef, entries: Vec<(MapKey, Value)>)
        requires
            old(self)@.has_map(r.id),
        ensures
            final(self)@.maps == old(self)@.maps.update(r.id as int, entries_view(entries@)),
            final(self)@.lists == old(self)@.lists,
    {
        self.maps.set(r.id, entries);
        proof {
            assert(self@.maps =~= old(self)@.maps.update(r.id as int, entries_view(entries@)));
            assert(self@.lists =~= old(self)@.lists);
        }
    }
}

} // verus!
