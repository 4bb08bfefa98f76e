use vstd::prelude::*;

verus! {

/// An index together with the generation in which it was given out.
#[derive(Debug, PartialEq, Eq, PartialOrd, Ord, Clone, Copy, Structural)]
pub struct GenerationalIndex {
    index: usize,
    generation: usize,
}

impl GenerationalIndex {
    pub closed spec fn index_of(&self) -> usize {
        self.index
    }

    pub closed spec fn generation_of(&self) -> usize {
        self.generation
    }

    pub fn index(&self) -> (index: usize)
        ensures
            index == self.index_of(),
    {
        self.index
    }

    pub fn generation(&self) -> (generation: usize)
        ensures
            generation == self.generation_of(),
    {
        self.generation
    }
}

/// One slot of the allocator.
pub struct AllocatorEntry {
    pub is_live: bool,
    pub generation: usize,
}

/// Number of live slots among `entries`.
pub open spec fn count_live_slots(entries: Seq<AllocatorEntry>) -> nat
    decreases entries.len(),
{
    if entries.len() == 0 {
        0
    } else {
        count_live_slots(entries.drop_last()) + if entries.last().is_live {
            1nat
        } else {
            0nat
        }
    }
}

/// Gives out indices, reuses freed ones, and tells the uses of one index
/// apart by a generation that goes up with each release.
pub struct GenerationalIndexAllocator {
    entries: Vec<AllocatorEntry>,
    free: Vec<usize>,
}

impl Default for GenerationalIndexAllocator {
    /// An allocator without slots.
    fn default() -> (allocator: Self)
        ensures
            allocator.wf(),
            allocator.entries().len() == 0,
            allocator.free_list().len() == 0,
    {
        GenerationalIndexAllocator { entries: Vec::new(), free: Vec::new() }
    }
}

impl GenerationalIndexAllocator {
    /// The slots, by index.
    pub closed spec fn entries(&self) -> Seq<AllocatorEntry> {
        self.entries@
    }

    /// The freed indices, most recently freed last.
    pub closed spec fn free_list(&self) -> Seq<usize> {
        self.free@
    }

    /// The free list holds exactly the indices of the slots that are not
    /// live, each once.
    pub open spec fn wf(&self) -> bool {
        &&& self.entries().len() <= usize::MAX
        &&& self.free_list().no_duplicates()
        &&& forall|k: int|
            0 <= k < self.free_list().len() ==> (#[trigger] self.free_list()[k] as int)
                < self.entries().len() && !self.entries()[self.free_list()[k] as int].is_live
        &&& forall|i: int|
            0 <= i < self.entries().len() && !(#[trigger] self.entries()[i]).is_live
                ==> self.free_list().contains(i as usize)
    }

    /// The index is live when its slot is live and still has the index's
    /// generation.
    pub open spec fn live(&self, gen_index: GenerationalIndex) -> bool {
        &&& (gen_index.index_of() as int) < self.entries().len()
        &&& self.entries()[gen_index.index_of() as int].is_live
        &&& self.entries()[gen_index.index_of() as int].generation == gen_index.generation_of()
    }

    pub fn new() -> (allocator: Self)
        ensures
            allocator.wf(),
            allocator.entries().len() == 0,
            allocator.free_list().len() == 0,
    {
        Self::default()
    }

    /// Gives out the most recently freed index, in the generation it was
    /// left with, or a new index of generation 0 when none is free.
    pub fn allocate(&mut self) -> (gen_index: GenerationalIndex)
        requires
            old(self).wf(),
        ensures
            final(self).wf(),
            final(self).live(gen_index),
            !old(self).live(gen_index),
            old(self).free_list().len() > 0 ==> {
                let index = old(self).free_list().last();
                &&& gen_index.index_of() == index
                &&& gen_index.generation_of() == old(self).entries()[index as int].generation
                &&& final(self).free_list() == old(self).free_list().drop_last()
                &&& final(self).entries() == old(self).entries().update(
                    index as int,
                    AllocatorEntry {
                        is_live: true,
                        generation: old(self).entries()[index as int].generation,
                    },
                )
            },
            old(self).free_list().len() == 0 ==> {
                &&& gen_index.index_of() == old(self).entries().len()
                &&& gen_index.generation_of() == 0
                &&& final(self).free_list() == old(self).free_list()
                &&& final(self).entries() == old(self).entries().push(
                    AllocatorEntry { is_live: true, generation: 0 },
                )
            },
    {
        if let Some(index) = self.free.pop() {
            let id_entry = &mut self.entries[index];
            assert(!id_entry.is_live);
            id_entry.is_live = true;
            let gen_index = GenerationalIndex { index, generation: id_entry.generation };
            proof {
                let old_free = old(self).free_list();
                assert(old_free[old_free.len() - 1] == index);
                assert forall|i: int|
                    0 <= i < self.entries().len() && !(#[trigger] self.entries()[i]).is_live
                    implies self.free_list().contains(i as usize) by {
                    assert(!old(self).entries()[i].is_live);
                    let k = choose|k: int| 0 <= k < old_free.len() && old_free[k] == i as usize;
                    assert(k != old_free.len() - 1);
                    assert(self.free_list()[k] == i as usize);
                }
            }
            gen_index
        } else {
            self.entries.push(AllocatorEntry { is_live: true, generation: 0 });
            GenerationalIndex { index: self.entries.len() - 1, generation: 0 }
        }
    }

    /// Frees the slot of `gen_index` and starts its next generation. Returns
    /// whether there was a live slot to free. The generation of `gen_index`
    /// is not looked at.
    pub fn deallocate(&mut self, gen_index: GenerationalIndex) -> (freed: bool)
        requires
            old(self).wf(),
            (gen_index.index_of() as int) < old(self).entries().len()
                && old(self).entries()[gen_index.index_of() as int].is_live
                ==> old(self).entries()[gen_index.index_of() as int].generation < usize::MAX,
        ensures
            final(self).wf(),
            freed == ((gen_index.index_of() as int) < old(self).entries().len() && old(
                self,
            ).entries()[gen_index.index_of() as int].is_live),
            !freed ==> final(self).entries() == old(self).entries() && final(self).free_list()
                == old(self).free_list(),
            freed ==> {
                &&& final(self).entries() == old(self).entries().update(
                    gen_index.index_of() as int,
                    AllocatorEntry {
                        is_live: false,
                        generation: (old(self).entries()[gen_index.index_of() as int].generation
                            + 1) as usize,
                    },
                )
                &&& final(self).free_list() == old(self).free_list().push(gen_index.index_of())
                &&& !final(self).live(gen_index)
            },
    {
        if gen_index.index >= self.entries.len() {
            return false;
        }
        let id_entry = &mut self.entries[gen_index.index];
        if !id_entry.is_live {
            return false;
        }
        id_entry.is_live = false;
        id_entry.generation = id_entry.generation + 1;
        self.free.push(gen_index.index);
        proof {
            let old_free = old(self).free_list();
            assert forall|k: int| 0 <= k < old_free.len() implies old_free[k]
                != gen_index.index by {
                assert(!old(self).entries()[old_free[k] as int].is_live);
            }
            assert forall|i: int|
                0 <= i < self.entries().len() && !(#[trigger] self.entries()[i]).is_live
                implies self.free_list().contains(i as usize) by {
                if i == gen_index.index {
                    assert(self.free_list()[old_free.len() as int] == gen_index.index);
                } else {
                    assert(!old(self).entries()[i].is_live);
                    let k = choose|k: int| 0 <= k < old_free.len() && old_free[k] == i as usize;
                    assert(self.free_list()[k] == i as usize);
                }
            }
        }
        true
    }

    /// Number of live slots.
    pub fn live_count(&self) -> (n: usize)
        ensures
            n == count_live_slots(self.entries()),
    {
        let mut n: usize = 0;
        let mut i: usize = 0;
        while i < self.entries.len()
            invariant
                i <= self.entries.len(),
                n == count_live_slots(self.entries@.take(i as int)),
                n <= i,
            decreases self.entries.len() - i,
        {
            proof {
                assert(self.entries@.take(i + 1).drop_last() == self.entries@.take(i as int));
            }
            if self.entries[i].is_live {
                n = n + 1;
            }
            i = i + 1;
        }
        proof {
            assert(self.entries@.take(i as int) == self.entries@);
        }
        n
    }

    pub fn is_live(&self, gen_index: GenerationalIndex) -> (b: bool)
        ensures
            b == self.live(gen_index),
    {
        if gen_index.index >= self.entries.len() {
            return false;
        }
        self.entries[gen_index.index].is_live && self.entries[gen_index.index].generation
            == gen_index.generation
    }

    /// Number of slots ever allocated.
    pub fn max_allocated(&self) -> (n: usize)
        ensures
            n == self.entries().len(),
    {
        self.entries.len()
    }

    /// The live index at `index`, in its current generation.
    pub fn live_at_index(&self, index: usize) -> (found: Option<GenerationalIndex>)
        ensures
            match found {
                Some(gen_index) => {
                    &&& gen_index.index_of() == index
                    &&& self.live(gen_index)
                },
                None => !((index as int) < self.entries().len()
                    && self.entries()[index as int].is_live),
            },
    {
        if index < self.entries.len() {
            let gi = &self.entries[index];
            if gi.is_live {
                return Some(GenerationalIndex { index, generation: gi.generation });
            }
        }
        None
    }
}

} // verus!
