//! Fixed-capacity pool of offscreen render-target slots.
//!
//! The pool owns the free list of slot indices; the surfaces themselves
//! live with the host's drawing back end, which addresses them by the
//! same indices. A slot is checked out by [`SurfacePool::acquire`] and
//! must be returned exactly once through [`SurfacePool::release`].
use vstd::prelude::*;
use vstd::set_lib::lemma_int_range;
use vstd::set_lib::lemma_set_difference_len;
use vstd::set_lib::set_int_range;
use crate::FireworkError;

verus! {

/// The slot indices of a free list, as mathematical integers.
pub open spec fn slots_of(free: Seq<usize>) -> Seq<int> {
    free.map_values(|s: usize| s as int)
}

/// A fixed set of reusable render-target slots, identified by index,
/// with a free list of the indices not currently checked out.
pub struct SurfacePool {
    /// Total number of slots; fixed at construction, never grows.
    pub capacity: usize,
    /// Indices in `0..capacity` not currently held by a live explosion.
    pub free: Vec<usize>,
}

impl SurfacePool {
    /// The total number of slots.
    pub open spec fn cap(self) -> int {
        self.capacity as int
    }

    /// The free list as a sequence (last element is the next to be handed out).
    pub open spec fn free_seq(self) -> Seq<usize> {
        self.free@
    }

    /// How many slots are currently free.
    pub open spec fn free_count(self) -> int {
        self.free@.len() as int
    }

    /// The free slot indices, as a set.
    pub open spec fn free_set(self) -> Set<int> {
        slots_of(self.free@).to_set()
    }

    /// Every slot index of this pool.
    pub open spec fn all_slots(self) -> Set<int> {
        set_int_range(0, self.cap())
    }

    /// The slot indices currently checked out.
    pub open spec fn held_set(self) -> Set<int> {
        self.all_slots().difference(self.free_set())
    }

    /// Whether `slot` is currently free.
    pub open spec fn is_free(self, slot: int) -> bool {
        self.free_set().contains(slot)
    }

    /// The free list holds each index at most once, and only indices of
    /// this pool. Established by `new` and preserved by every method.
    pub open spec fn wf(self) -> bool {
        &&& self.free@.no_duplicates()
        &&& forall|i: int|
            0 <= i < self.free@.len() ==> (#[trigger] self.free@[i]) < self.capacity
    }

    /// Creates a pool with `capacity` slots, all free.
    pub fn new(capacity: usize) -> (pool: SurfacePool)
        ensures
            pool.wf(),
            pool.cap() == capacity,
            pool.free_count() == capacity,
            forall|i: int| 0 <= i < capacity ==> #[trigger] pool.free_seq()[i] == i,
    {
        let mut free: Vec<usize> = Vec::new();
        let mut i: usize = 0;
        while i < capacity
            invariant
                i <= capacity,
                free@.len() == i,
                forall|j: int| 0 <= j < i ==> #[trigger] free@[j] == j,
            decreases capacity - i,
        {
            free.push(i);
            i = i + 1;
        }
        SurfacePool { capacity, free }
    }

    /// How many slots are currently free.
    pub fn free_len(&self) -> (n: usize)
        ensures
            n == self.free_count(),
    {
        self.free.len()
    }

    /// The total number of slots.
    pub fn total_slots(&self) -> (n: usize)
        ensures
            n == self.cap(),
    {
        self.capacity
    }

    /// Pops one slot index off the free list; fails with `Exhausted`, and
    /// leaves the pool untouched, exactly when no slot is free.
    pub fn acquire(&mut self) -> (r: Result<usize, FireworkError>)
        requires
            old(self).wf(),
        ensures
            final(self).wf(),
            final(self).cap() == old(self).cap(),
            r is Err <==> old(self).free_count() == 0,
            r is Err ==> r == Err::<usize, FireworkError>(FireworkError::Exhausted)
                && final(self).free_seq() == old(self).free_seq(),
            r is Ok ==> {
                &&& r == Ok::<usize, FireworkError>(old(self).free_seq().last())
                &&& final(self).free_seq() == old(self).free_seq().drop_last()
                &&& r.unwrap() < old(self).cap()
                &&& old(self).is_free(r.unwrap() as int)
                &&& !final(self).is_free(r.unwrap() as int)
            },
    {
        match self.free.pop() {
            None => Err(FireworkError::Exhausted),
            Some(slot) => {
                proof {
                    let popped = old(self).free_seq().last();
                    assert(old(self).free_seq().contains(popped)) by {
                        assert(old(self).free_seq()[old(self).free_seq().len() - 1] == popped);
                    }
                    assert(old(self).is_free(popped as int)) by {
                        let s = slots_of(old(self).free_seq());
                        assert(s[s.len() - 1] == popped as int);
                        assert(s.contains(popped as int));
                    }
                    assert(!final(self).is_free(popped as int)) by {
                        let s = slots_of(final(self).free_seq());
                        if s.contains(popped as int) {
                            let i = choose|i: int| 0 <= i < s.len() && s[i] == popped as int;
                            assert(final(self).free_seq()[i] == popped);
                            assert(old(self).free_seq()[i] == popped);
                            assert(old(self).free@.no_duplicates());
                        }
                    }
                }
                Ok(slot)
            },
        }
    }

    /// Pushes a checked-out slot index back onto the free list. Each
    /// acquired index must be released exactly once: releasing an index
    /// that is already free, or not a slot of this pool, is ruled out.
    pub fn release(&mut self, slot: usize)
        requires
            old(self).wf(),
            slot < old(self).cap(),
            !old(self).is_free(slot as int),
        ensures
            final(self).wf(),
            final(self).cap() == old(self).cap(),
            final(self).free_seq() == old(self).free_seq().push(slot),
            final(self).free_count() == old(self).free_count() + 1,
            final(self).is_free(slot as int),
    {
        proof {
            assert(forall|i: int|
                0 <= i < old(self).free@.len() ==> #[trigger] old(self).free@[i] != slot) by {
                if exists|i: int| 0 <= i < old(self).free@.len() && #[trigger] old(self).free@[i] == slot {
                    let i = choose|i: int|
                        0 <= i < old(self).free@.len() && #[trigger] old(self).free@[i] == slot;
                    let s = slots_of(old(self).free_seq());
                    assert(s[i] == slot as int);
                    assert(s.contains(slot as int));
                }
            }
        }
        self.free.push(slot);
        proof {
            let s = slots_of(final(self).free_seq());
            assert(s[s.len() - 1] == slot as int);
            assert(s.contains(slot as int));
        }
    }

    /// The free slots and the held slots together account for every slot
    /// exactly once: `|held| + |free| == capacity` at every observation
    /// point, for any pool kept well-formed by acquire/release discipline.
    pub proof fn lemma_pool_conservation(self)
        requires
            self.wf(),
        ensures
            self.free_set().finite(),
            self.free_set().len() == self.free_count(),
            self.held_set().len() + self.free_set().len() == self.cap(),
    {
        broadcast use vstd::seq_lib::seq_to_set_is_finite;

        let m = slots_of(self.free@);
        assert(m.no_duplicates()) by {
            assert(forall|i: int, j: int|
                0 <= i < m.len() && 0 <= j < m.len() && i != j ==> m[i] != m[j]) by {
                assert(forall|i: int, j: int|
                    0 <= i < m.len() && 0 <= j < m.len() && i != j
                        ==> self.free@[i] != self.free@[j]);
            }
        }
        m.unique_seq_to_set();
        lemma_int_range(0, self.cap());
        assert(self.free_set().subset_of(self.all_slots())) by {
            assert forall|x: int| self.free_set().contains(x) implies self.all_slots().contains(x) by {
                let i = choose|i: int| 0 <= i < m.len() && m[i] == x;
                assert(self.free@[i] < self.capacity);
            }
        }
        lemma_set_difference_len(self.all_slots(), self.free_set());
        assert(self.all_slots().intersect(self.free_set()) =~= self.free_set());
    }
}

} // verus!
