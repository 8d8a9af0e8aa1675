use vstd::prelude::*;

verus! {

use crate::lattice::voxel::Voxel;
use crate::material_table::{find_voxel, first_index_of};

/// Number of occurrences of `v` in `s`.
pub open spec fn count_of(s: Seq<u32>, v: u32) -> nat
    decreases s.len(),
{
    if s.len() == 0 {
        0
    } else {
        count_of(s.drop_last(), v) + if s.last() == v {
            1nat
        } else {
            0nat
        }
    }
}

/// `m` is a most frequent value of `s`, the earliest of them to occur.
pub open spec fn is_mode(s: Seq<u32>, m: u32) -> bool {
    &&& s.contains(m)
    &&& forall|v: u32| count_of(s, v) <= count_of(s, m)
    &&& forall|j: int|
        0 <= j < first_index_of(s, m) ==> #[trigger] count_of(s, s[j]) < count_of(s, m)
}

/// Values that occur in a sequence are exactly those with a positive count.
pub proof fn lemma_count_positive(s: Seq<u32>, v: u32)
    ensures
        count_of(s, v) > 0 <==> s.contains(v),
    decreases s.len(),
{
    if s.len() > 0 {
        lemma_count_positive(s.drop_last(), v);
        if s.drop_last().contains(v) {
            let j = choose|j: int| 0 <= j < s.drop_last().len() && s.drop_last()[j] == v;
            assert(s[j] == v);
        }
        if s.contains(v) && s.last() != v {
            let j = choose|j: int| 0 <= j < s.len() && s[j] == v;
            assert(s.drop_last()[j] == v);
        }
    }
}

/// Number of occurrences of `v` in `s`.
fn count_in(s: &[u32], v: u32) -> (r: usize)
    ensures
        r == count_of(s@, v),
{
    let mut c: usize = 0;
    let mut k: usize = 0;
    while k < s.len()
        invariant
            k <= s@.len(),
            c == count_of(s@.take(k as int), v),
            c <= k,
        decreases s@.len() - k,
    {
        proof {
            assert(s@.take(k as int + 1).drop_last() =~= s@.take(k as int));
        }
        if s[k] == v {
            c += 1;
        }
        k += 1;
    }
    assert(s@.take(s@.len() as int) =~= s@);
    c
}

/// Deduplicated table of voxel values of a chunk.
pub struct MaterialTable {
    pub values: Vec<Voxel>,
}

impl MaterialTable {
    pub fn len(&self) -> (r: u32)
        requires
            self.values@.len() <= u32::MAX,
        ensures
            r == self.values@.len(),
    {
        self.values.len() as u32
    }

    pub fn is_empty(&self) -> (r: bool)
        ensures
            r == (self.values@.len() == 0),
    {
        self.values.is_empty()
    }

    pub fn get(&self, idx: u32) -> (r: Voxel)
        requires
            (idx as int) < self.values@.len(),
        ensures
            r == self.values@[idx as int],
    {
        self.values[idx as usize]
    }

    /// Returns the index of an existing entry equal to `voxel` (the first
    /// one), or appends `voxel` and returns its index.
    pub fn get_or_add(&mut self, voxel: Voxel) -> (r: u32)
        requires
            old(self).values@.len() < u32::MAX,
        ensures
            old(self).values@.contains(voxel) ==> final(self).values@ == old(self).values@ && r
                == first_index_of(old(self).values@, voxel),
            !old(self).values@.contains(voxel) ==> final(self).values@ == old(self).values@.push(
                voxel,
            ) && r == old(self).values@.len(),
            final(self).values@[r as int] == voxel,
    {
        match find_voxel(&self.values, voxel) {
            Some(i) => {
                proof {
                    let f = first_index_of(self.values@, voxel);
                    assert(self.values@.contains(voxel));
                    if f < i {
                        assert(self.values@[f] != voxel);
                    } else if f > i {
                        assert(self.values@[i as int] != voxel);
                    }
                }
                i as u32
            },
            None => {
                let idx = self.values.len() as u32;
                self.values.push(voxel);
                idx
            },
        }
    }

    /// The most frequently occurring index, used for LOD values: among the
    /// most frequent, the one that occurs first. An empty input gives 0.
    pub fn mode(indices: &[u32]) -> (r: u32)
        ensures
            indices@.len() > 0 ==> is_mode(indices@, r),
            indices@.len() == 0 ==> r == 0,
    {
        if indices.len() == 0 {
            return 0;
        }
        let s = indices;
        let mut best = s[0];
        let mut best_count = count_in(s, best);
        let mut best_at: usize = 0;
        let mut i: usize = 1;
        while i < s.len()
            invariant
                1 <= i <= s@.len(),
                best_at < i,
                s@[best_at as int] == best,
                best_count == count_of(s@, best),
                forall|j: int| 0 <= j < best_at ==> s@[j] != best,
                forall|j: int| 0 <= j < i ==> #[trigger] count_of(s@, s@[j]) <= best_count,
                forall|j: int| 0 <= j < best_at ==> #[trigger] count_of(s@, s@[j]) < best_count,
            decreases s@.len() - i,
        {
            let c = count_in(s, s[i]);
            if c > best_count {
                best = s[i];
                best_count = c;
                best_at = i;
            }
            i += 1;
        }
        proof {
            assert(s@.contains(best));
            let f = first_index_of(s@, best);
            if f < best_at {
                assert(s@[f] != best);
            } else if f > best_at {
                assert(s@[best_at as int] != best);
            }
            assert forall|v: u32| count_of(s@, v) <= count_of(s@, best) by {
                lemma_count_positive(s@, v);
                if s@.contains(v) {
                    let j = choose|j: int| 0 <= j < s@.len() && s@[j] == v;
                    assert(count_of(s@, s@[j]) <= best_count);
                }
            }
        }
        best
    }
}

} // verus!