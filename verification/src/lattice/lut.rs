//! Per-chunk palette: maps unique voxel values to compact indices.
use std::collections::HashMap;
use vstd::prelude::*;

verus! {

broadcast use vstd::std_specs::hash::group_hash_axioms;

/// Per-chunk palette. Maps unique values to compact indices, in order of
/// first insertion. The bit width of an index array referencing it is set by
/// `len()`.
#[derive(Clone, Debug)]
pub struct Lut {
    pub values: Vec<u32>,
    lookup: HashMap<u32, u32>,
}

impl View for Lut {
    type V = Seq<u32>;

    /// The table's values; a value's index is its position.
    closed spec fn view(&self) -> Seq<u32> {
        self.values@
    }
}

impl Lut {
    /// No value occurs twice, and the lookup maps exactly the table's values
    /// to their positions.
    pub closed spec fn wf(&self) -> bool {
        &&& self.values@.len() <= u32::MAX
        &&& forall|i: int, j: int|
            0 <= i < j < self.values@.len() ==> self.values@[i] != self.values@[j]
        &&& forall|i: int|
            0 <= i < self.values@.len() ==> #[trigger] self.lookup@.contains_key(self.values@[i])
                && self.lookup@[self.values@[i]] == i
        &&& forall|v: u32|
            #[trigger] self.lookup@.contains_key(v) ==> self.lookup@[v] < self.values@.len()
                && self.values@[self.lookup@[v] as int] == v
    }

    pub fn new() -> (r: Self)
        ensures
            r.wf(),
            r@.len() == 0,
    {
        Self { values: Vec::new(), lookup: HashMap::new() }
    }

    pub fn with_capacity(cap: u32) -> (r: Self)
        ensures
            r.wf(),
            r@.len() == 0,
    {
        Self {
            values: Vec::with_capacity(cap as usize),
            lookup: HashMap::with_capacity(cap as usize),
        }
    }

    /// Returns the index of `value` in the table, inserting it if not present.
    pub fn insert(&mut self, value: u32) -> (r: u32)
        requires
            old(self).wf(),
            old(self)@.len() < u32::MAX,
        ensures
            final(self).wf(),
            old(self)@.contains(value) ==> final(self)@ == old(self)@ && (r as int) < old(self)@.len(),
            !old(self)@.contains(value) ==> final(self)@ == old(self)@.push(value) && r == old(
                self,
            )@.len(),
            final(self)@[r as int] == value,
    {
        match self.lookup.get(&value) {
            Some(idx) => {
                let idx = *idx;
                return idx;
            },
            None => {},
        }
        proof {
            assert(!self@.contains(value)) by {
                if self@.contains(value) {
                    let j = choose|j: int| 0 <= j < self@.len() && self@[j] == value;
                    assert(self.lookup@.contains_key(self.values@[j]));
                }
            }
        }
        let ghost old_lut = *self;
        let idx = self.values.len() as u32;
        self.values.push(value);
        self.lookup.insert(value, idx);
        proof {
            assert forall|i: int|
                0 <= i < self.values@.len() implies #[trigger] self.lookup@.contains_key(
                self.values@[i],
            ) && self.lookup@[self.values@[i]] == i by {
                if i < old_lut.values@.len() {
                    assert(old_lut.lookup@.contains_key(old_lut.values@[i]));
                }
            }
            assert forall|v: u32| #[trigger] self.lookup@.contains_key(v) implies self.lookup@[v]
                < self.values@.len() && self.values@[self.lookup@[v] as int] == v by {
                if v != value {
                    assert(old_lut.lookup@.contains_key(v));
                }
            }
        }
        idx
    }

    /// Returns the index of `value` if it is already in the table.
    pub fn get(&self, value: u32) -> (r: Option<u32>)
        requires
            self.wf(),
        ensures
            r matches Some(i) ==> (i as int) < self@.len() && self@[i as int] == value,
            r is None <==> !self@.contains(value),
    {
        match self.lookup.get(&value) {
            Some(idx) => Some(*idx),
            None => {
                proof {
                    if self@.contains(value) {
                        let j = choose|j: int| 0 <= j < self@.len() && self@[j] == value;
                        assert(self.lookup@.contains_key(self.values@[j]));
                    }
                }
                None
            },
        }
    }

    pub fn len(&self) -> (r: u32)
        requires
            self.wf(),
        ensures
            r == self@.len(),
    {
        self.values.len() as u32
    }

    pub fn is_empty(&self) -> (r: bool)
        ensures
            r == (self@.len() == 0),
    {
        self.values.is_empty()
    }
}

impl Default for Lut {
    fn default() -> (r: Self)
        ensures
            r.wf(),
            r@.len() == 0,
    {
        Self::new()
    }
}

/// In a well-formed table, which every operation keeps, each value occurs
/// once: inserting a value twice yields one index.
pub proof fn lemma_one_index_per_value(l: &Lut, i: int, j: int)
    requires
        l.wf(),
        0 <= i < l@.len(),
        0 <= j < l@.len(),
        l@[i] == l@[j],
    ensures
        i == j,
{
}

} // verus!
