//! Allocation of small integer identifiers with reuse.

use vstd::prelude::*;

verus! {

/// Identifies a process.
pub type Pid = usize;

/// Identifies a thread within its process.
pub type Tid = usize;

/// Identifiers are drawn from `0..ID_LIMIT`, so that each one also fits a
/// signed machine word.
pub const ID_LIMIT: usize = 0x7fff_ffff;

/// Hands out the smallest identifier that is not in use and takes
/// identifiers back for reuse.
pub struct IdAllocator {
    /// Every identifier below `next` has been issued at least once.
    next: usize,
    /// The identifiers below `next` that were given back.
    recycled: Vec<usize>,
}

/// The smallest identifier that is not in `used`.
pub open spec fn smallest_unused(used: Set<usize>) -> usize {
    choose|id: usize| is_smallest_unused(used, id)
}

/// `id` is not in `used`, and every smaller identifier is.
pub open spec fn is_smallest_unused(used: Set<usize>, id: usize) -> bool {
    &&& !used.contains(id)
    &&& forall|other: usize| other < id ==> used.contains(other)
}

/// At most one identifier is the smallest unused one, and `smallest_unused`
/// names it.
pub proof fn lemma_smallest_unused_unique(used: Set<usize>, id: usize)
    requires
        is_smallest_unused(used, id),
    ensures
        smallest_unused(used) == id,
{
    let chosen = smallest_unused(used);
    assert(is_smallest_unused(used, chosen));
    if chosen < id {
        assert(used.contains(chosen));
    } else if id < chosen {
        assert(used.contains(id));
    }
}

/// Where some identifier is unused, a smallest unused one exists, and
/// `smallest_unused` names it.
pub proof fn lemma_smallest_unused_exists(used: Set<usize>, free: usize)
    requires
        !used.contains(free),
    ensures
        is_smallest_unused(used, smallest_unused(used)),
        smallest_unused(used) <= free,
    decreases free,
{
    if forall|other: usize| other < free ==> used.contains(other) {
        lemma_smallest_unused_unique(used, free);
    } else {
        let other = choose|other: usize| other < free && !used.contains(other);
        lemma_smallest_unused_exists(used, other);
    }
}

/// Where an identifier below the limit is free, the smallest unused one is
/// below the limit too.
pub proof fn lemma_smallest_unused_below_limit(used: Set<usize>)
    requires
        has_free_id(used),
    ensures
        is_smallest_unused(used, smallest_unused(used)),
        smallest_unused(used) < ID_LIMIT,
{
    let free = choose|id: usize| id < ID_LIMIT && !used.contains(id);
    lemma_smallest_unused_exists(used, free);
}

/// Some identifier below the limit is not in `used`.
pub open spec fn has_free_id(used: Set<usize>) -> bool {
    exists|id: usize| id < ID_LIMIT && !used.contains(id)
}

/// With nothing in use, the smallest unused identifier is zero.
pub proof fn lemma_smallest_unused_of_empty()
    ensures
        smallest_unused(Set::<usize>::empty()) == 0,
        has_free_id(Set::<usize>::empty()),
{
    lemma_smallest_unused_unique(Set::<usize>::empty(), 0);
    assert(0usize < ID_LIMIT && !Set::<usize>::empty().contains(0usize));
}

impl View for IdAllocator {
    type V = Set<usize>;

    /// The identifiers that are in use.
    closed spec fn view(&self) -> Set<usize> {
        Set::new(|id: usize| id < self.next && !self.recycled@.contains(id))
    }
}

impl IdAllocator {
    /// The representation is consistent: recycled identifiers were issued
    /// before, none is listed twice, and the limit is respected.
    pub closed spec fn wf(&self) -> bool {
        &&& self.next <= ID_LIMIT
        &&& self.recycled@.no_duplicates()
        &&& forall|i: int| 0 <= i < self.recycled@.len() ==> self.recycled@[i] < self.next
    }

    /// An allocator with no identifier in use.
    pub fn new() -> (allocator: IdAllocator)
        ensures
            allocator.wf(),
            allocator@ == Set::<usize>::empty(),
    {
        let allocator = IdAllocator { next: 0, recycled: Vec::new() };
        assert(allocator@ =~= Set::<usize>::empty());
        allocator
    }

    /// Whether `id` is in use.
    pub fn is_allocated(&self, id: usize) -> (in_use: bool)
        requires
            self.wf(),
        ensures
            in_use == self@.contains(id),
    {
        if id >= self.next {
            return false;
        }
        let mut i: usize = 0;
        while i < self.recycled.len()
            invariant
                0 <= i <= self.recycled.len(),
                forall|j: int| 0 <= j < i ==> self.recycled@[j] != id,
            decreases self.recycled.len() - i,
        {
            if self.recycled[i] == id {
                return false;
            }
            i += 1;
        }
        true
    }

    /// Whether an identifier can still be allocated.
    pub fn can_allocate(&self) -> (free: bool)
        requires
            self.wf(),
        ensures
            free == has_free_id(self@),
    {
        if self.recycled.len() > 0 {
            let id: usize = self.recycled[0];
            assert(id < ID_LIMIT && !self@.contains(id));
            true
        } else if self.next < ID_LIMIT {
            let id: usize = self.next;
            assert(id < ID_LIMIT && !self@.contains(id));
            true
        } else {
            assert(forall|id: usize| id < ID_LIMIT ==> self@.contains(id));
            false
        }
    }

    /// Takes the smallest identifier that is not in use.
    pub fn allocate(&mut self) -> (id: usize)
        requires
            old(self).wf(),
            has_free_id(old(self)@),
        ensures
            final(self).wf(),
            is_smallest_unused(old(self)@, id),
            id == smallest_unused(old(self)@),
            id < ID_LIMIT,
            final(self)@ == old(self)@.insert(id),
    {
        let ghost before = self@;
        let id: usize;
        if self.recycled.len() == 0 {
            id = self.next;
            self.next = self.next + 1;
        } else {
            let mut best: usize = 0;
            let mut i: usize = 1;
            while i < self.recycled.len()
                invariant
                    0 <= best < i <= self.recycled.len(),
                    forall|j: int| 0 <= j < i ==> self.recycled@[best as int] <= self.recycled@[j],
                decreases self.recycled.len() - i,
            {
                if self.recycled[i] < self.recycled[best] {
                    best = i;
                }
                i += 1;
            }
            let ghost listed = self.recycled@;
            id = self.recycled.remove(best);
            assert forall|k: int| 0 <= k < self.recycled@.len() implies self.recycled@[k] != id by {
                if k < best {
                    assert(self.recycled@[k] == listed[k]);
                } else {
                    assert(self.recycled@[k] == listed[k + 1]);
                }
            }
            assert forall|other: usize| listed.contains(other) && other != id implies self.recycled@.contains(other) by {
                let k = choose|k: int| 0 <= k < listed.len() && listed[k] == other;
                if k < best {
                    assert(self.recycled@[k] == other);
                } else {
                    assert(self.recycled@[k - 1] == other);
                }
            }
            assert forall|other: usize| other < id implies before.contains(other) by {
                if listed.contains(other) {
                    let k = choose|k: int| 0 <= k < listed.len() && listed[k] == other;
                    assert(listed[best as int] <= listed[k]);
                }
            }
            assert(listed.contains(id));
        }
        assert(self@ =~= before.insert(id));
        proof {
            lemma_smallest_unused_unique(before, id);
        }
        id
    }

    /// Gives `id` back. Only an identifier that is in use can be given back.
    pub fn deallocate(&mut self, id: usize)
        requires
            old(self).wf(),
            old(self)@.contains(id),
        ensures
            final(self).wf(),
            final(self)@ == old(self)@.remove(id),
    {
        let ghost before = self@;
        let ghost listed = self.recycled@;
        self.recycled.push(id);
        assert forall|other: usize| self.recycled@.contains(other) implies listed.contains(other) || other == id by {
            let k = choose|k: int| 0 <= k < self.recycled@.len() && self.recycled@[k] == other;
            if k < listed.len() {
                assert(listed[k] == other);
            }
        }
        assert forall|other: usize| listed.contains(other) || other == id implies self.recycled@.contains(other) by {
            if other == id {
                assert(self.recycled@[listed.len() as int] == id);
            } else {
                let k = choose|k: int| 0 <= k < listed.len() && listed[k] == other;
                assert(self.recycled@[k] == other);
            }
        }
        assert(self@ =~= before.remove(id));
    }
}

} // verus!
