//! Owns the live explosions and the surface pool, drives the per-frame
//! update, and reaps expired explosions, releasing their surface slot
//! back to the pool exactly once.
use vstd::prelude::*;
use crate::explosion::frame_matches;
use crate::explosion::step_model;
use crate::explosion::tick_time_left;
use crate::explosion::Explosion;
use crate::explosion::ExplosionModel;
use crate::explosion::FrameResult;
use crate::explosion::spawned_explosion;
use crate::pool::slots_of;
use crate::pool::SurfacePool;
use crate::vector2d::Vector2D;
use crate::FireworkError;

verus! {

/// The ghost values of a sequence of explosions, in order.
pub open spec fn models_of(es: Seq<Explosion>) -> Seq<ExplosionModel> {
    es.map_values(|e: Explosion| e.model())
}

/// Every model stepped by one frame of `delta_time_ms`.
pub open spec fn step_models(ms: Seq<ExplosionModel>, delta_time_ms: int) -> Seq<ExplosionModel> {
    ms.map_values(|m: ExplosionModel| step_model(m, delta_time_ms))
}

/// The models still alive (time left at least one), in order.
pub open spec fn surviving(ms: Seq<ExplosionModel>) -> Seq<ExplosionModel>
    decreases ms.len(),
{
    if ms.len() == 0 {
        Seq::empty()
    } else if ms.last().time_left_ms >= 1 {
        surviving(ms.drop_last()).push(ms.last())
    } else {
        surviving(ms.drop_last())
    }
}

/// The slots of the expired models (time left zero), in order: the
/// slots a frame tick returns to the pool.
pub open spec fn expired_slots(ms: Seq<ExplosionModel>) -> Seq<int>
    decreases ms.len(),
{
    if ms.len() == 0 {
        Seq::empty()
    } else if ms.last().time_left_ms == 0 {
        expired_slots(ms.drop_last()).push(ms.last().slot)
    } else {
        expired_slots(ms.drop_last())
    }
}

/// How `surviving` grows when one model is appended.
proof fn lemma_surviving_push(ms: Seq<ExplosionModel>, m: ExplosionModel)
    ensures
        surviving(ms.push(m)) == if m.time_left_ms >= 1 {
            surviving(ms).push(m)
        } else {
            surviving(ms)
        },
{
    assert(ms.push(m).drop_last() =~= ms);
    assert(ms.push(m).last() == m);
}

/// How `expired_slots` grows when one model is appended.
proof fn lemma_expired_push(ms: Seq<ExplosionModel>, m: ExplosionModel)
    ensures
        expired_slots(ms.push(m)) == if m.time_left_ms == 0 {
            expired_slots(ms).push(m.slot)
        } else {
            expired_slots(ms)
        },
{
    assert(ms.push(m).drop_last() =~= ms);
    assert(ms.push(m).last() == m);
}

/// Appending to a sequence keeps every element it already contains.
proof fn lemma_push_preserves_contains(s: Seq<int>, v: int, x: int)
    requires
        s.contains(x),
    ensures
        s.push(v).contains(x),
{
    let k = choose|k: int| 0 <= k < s.len() && s[k] == x;
    assert(s.push(v)[k] == x);
}

/// Owns the set of live explosions and the pool their surfaces come
/// from. Slot release is tied to reaping inside [`ExplosionManager::tick`]:
/// every exit of a live explosion, and only such an exit, returns its
/// slot, so no slot is released twice and none leaks.
pub struct ExplosionManager {
    /// The fixed-capacity pool of surface slots.
    pub pool: SurfacePool,
    /// The live explosions, in spawn order.
    pub explosions: Vec<Explosion>,
}

impl ExplosionManager {
    /// The ghost values of the live explosions, in order.
    pub open spec fn live_models(self) -> Seq<ExplosionModel> {
        models_of(self.explosions@)
    }

    /// The pool is well-formed; every live explosion is well-formed,
    /// alive, and holds a distinct slot of the pool that is not free;
    /// and every slot is either free or held by some live explosion.
    pub open spec fn wf(self) -> bool {
        &&& self.pool.wf()
        &&& forall|i: int| 0 <= i < self.explosions@.len() ==> {
            let e = #[trigger] self.explosions@[i];
            &&& e.wf()
            &&& e.time_left_ms >= 1
            &&& (e.image_index as int) < self.pool.cap()
            &&& !self.pool.is_free(e.image_index as int)
        }
        &&& forall|i: int, j: int|
            0 <= i < j < self.explosions@.len()
                ==> (#[trigger] self.explosions@[i]).image_index
                    != (#[trigger] self.explosions@[j]).image_index
        &&& forall|s: int|
            #![trigger self.pool.is_free(s)]
            0 <= s < self.pool.cap() && !self.pool.is_free(s)
                ==> exists|i: int|
                    0 <= i < self.explosions@.len()
                        && (#[trigger] self.explosions@[i]).image_index as int == s
    }

    /// Creates a manager over a fresh pool of `capacity` slots and no
    /// live explosion.
    pub fn new(capacity: usize) -> (m: ExplosionManager)
        ensures
            m.wf(),
            m.pool.cap() == capacity,
            m.pool.free_count() == capacity,
            m.explosions@.len() == 0,
    {
        let pool = SurfacePool::new(capacity);
        let explosions: Vec<Explosion> = Vec::new();
        proof {
            assert forall|s: int| 0 <= s < pool.cap() implies pool.is_free(s) by {
                let m = slots_of(pool.free_seq());
                assert(pool.free_seq()[s] == s);
                assert(m[s] == s);
                assert(m.contains(s));
            }
        }
        ExplosionManager { pool, explosions }
    }

    /// How many explosions are live.
    pub fn live_count(&self) -> (n: usize)
        ensures
            n == self.explosions@.len(),
    {
        self.explosions.len()
    }

    /// How many pool slots are free.
    pub fn free_count(&self) -> (n: usize)
        ensures
            n == self.pool.free_count(),
    {
        self.pool.free_len()
    }

    /// Spawns a new explosion into the live set (see
    /// [`Explosion::spawn`]): on success one slot is consumed and the
    /// explosion is appended; on any failure nothing changes.
    pub fn spawn(
        &mut self,
        lifetime_ms: u32,
        directions: &Vec<Vector2D>,
        surface_width: u32,
        surface_height: u32,
    ) -> (r: Result<(), FireworkError>)
        requires
            old(self).wf(),
            forall|i: int| 0 <= i < directions@.len()
                ==> -1000 <= (#[trigger] directions@[i]).x <= 1000
                    && -1000 <= directions@[i].y <= 1000,
        ensures
            final(self).wf(),
            final(self).pool.cap() == old(self).pool.cap(),
            (r == Err::<(), FireworkError>(FireworkError::InvalidConfiguration))
                <==> (lifetime_ms == 0 || directions@.len() == 0
                    || surface_width <= 100 || surface_height <= 100),
            (r == Err::<(), FireworkError>(FireworkError::Exhausted))
                <==> (lifetime_ms >= 1 && directions@.len() >= 1
                    && surface_width > 100 && surface_height > 100
                    && old(self).pool.free_count() == 0),
            r is Err ==> final(self).pool.free_seq() == old(self).pool.free_seq()
                && final(self).explosions@ == old(self).explosions@,
            r is Ok ==> {
                &&& final(self).explosions@.len() == old(self).explosions@.len() + 1
                &&& final(self).pool.free_count() == old(self).pool.free_count() - 1
                &&& forall|i: int| 0 <= i < old(self).explosions@.len()
                    ==> final(self).explosions@[i] == old(self).explosions@[i]
                &&& spawned_explosion(
                    final(self).explosions@.last(), lifetime_ms, directions@,
                    surface_width, surface_height)
            },
    {
        let r = Explosion::spawn(
            lifetime_ms, directions, surface_width, surface_height,
            &mut self.pool, &mut self.explosions);
        proof {
            if r is Ok {
                let pre = old(self).explosions@;
                let post = self.explosions@;
                let e = post.last();
                let slot = e.image_index as int;
                assert(post.len() == pre.len() + 1);
                assert(post[post.len() - 1] == e);
                assert(e.time_left_ms >= 1);
                assert forall|j: int| 0 <= j < pre.len()
                    implies !self.pool.is_free((#[trigger] pre[j]).image_index as int) by {
                    let m0 = slots_of(old(self).pool.free_seq());
                    let m1 = slots_of(self.pool.free_seq());
                    if m1.contains(pre[j].image_index as int) {
                        let k = choose|k: int|
                            0 <= k < m1.len() && m1[k] == pre[j].image_index as int;
                        assert(self.pool.free_seq()[k] == old(self).pool.free_seq()[k]);
                        assert(m0[k] == m1[k]);
                        assert(m0.contains(pre[j].image_index as int));
                    }
                }
                assert forall|j: int| 0 <= j < pre.len()
                    implies (#[trigger] pre[j]).image_index != e.image_index by {
                    if pre[j].image_index == e.image_index {
                        assert(!old(self).pool.is_free(slot));
                        assert(old(self).pool.is_free(slot));
                    }
                }
                assert forall|s: int|
                    #![trigger self.pool.is_free(s)]
                    0 <= s < self.pool.cap() && !self.pool.is_free(s)
                    implies exists|i: int|
                        0 <= i < post.len()
                            && (#[trigger] post[i]).image_index as int == s by {
                    if s == slot {
                        assert(post[post.len() - 1].image_index as int == s);
                    } else {
                        assert(!old(self).pool.is_free(s)) by {
                            if old(self).pool.is_free(s) {
                                let m0 = slots_of(old(self).pool.free_seq());
                                let m1 = slots_of(self.pool.free_seq());
                                let k = choose|k: int| 0 <= k < m0.len() && m0[k] == s;
                                assert(k < m0.len() - 1) by {
                                    assert(m0[m0.len() - 1]
                                        == old(self).pool.free_seq().last() as int);
                                }
                                assert(self.pool.free_seq()[k]
                                    == old(self).pool.free_seq()[k]);
                                assert(m1[k] == s);
                                assert(m1.contains(s));
                            }
                        }
                        let i = choose|i: int|
                            0 <= i < pre.len() && (#[trigger] pre[i]).image_index as int == s;
                        assert(post[i].image_index as int == s);
                    }
                }
                assert forall|i: int| 0 <= i < post.len() implies {
                    let x = #[trigger] post[i];
                    &&& x.wf()
                    &&& x.time_left_ms >= 1
                    &&& (x.image_index as int) < self.pool.cap()
                    &&& !self.pool.is_free(x.image_index as int)
                } by {
                    if i < pre.len() {
                        assert(post[i] == pre[i]);
                        assert(pre[i].wf());
                    }
                }
                assert forall|i: int, j: int| 0 <= i < j < post.len()
                    implies (#[trigger] post[i]).image_index
                        != (#[trigger] post[j]).image_index by {
                    if j < pre.len() {
                        assert(post[i] == pre[i]);
                        assert(post[j] == pre[j]);
                    } else {
                        assert(post[i] == pre[i]);
                        assert(post[j] == e);
                    }
                }
            } else {
                assert(self.explosions@ == old(self).explosions@);
                assert(self.pool.free_seq() == old(self).pool.free_seq());
                assert forall|s: int|
                    #![trigger self.pool.is_free(s)]
                    0 <= s < self.pool.cap() && !self.pool.is_free(s)
                    implies exists|i: int|
                        0 <= i < self.explosions@.len()
                            && (#[trigger] self.explosions@[i]).image_index as int == s by {
                    assert(!old(self).pool.is_free(s));
                    let i = choose|i: int|
                        0 <= i < old(self).explosions@.len()
                            && (#[trigger] old(self).explosions@[i]).image_index as int == s;
                    assert(self.explosions@[i].image_index as int == s);
                }
            }
        }
        r
    }

    /// One frame for the whole display: updates every live explosion
    /// in order (collecting each one's drawn segments and compositing
    /// alpha for the host), then reaps the explosions whose alpha
    /// reached zero, releasing each reaped surface slot back to the
    /// pool exactly once. Survivors keep their relative order.
    pub fn tick(&mut self, delta_time_ms: u32) -> (frames: Vec<FrameResult>)
        requires
            old(self).wf(),
        ensures
            final(self).wf(),
            final(self).pool.cap() == old(self).pool.cap(),
            frames@.len() == old(self).explosions@.len(),
            forall|i: int| 0 <= i < frames@.len()
                ==> frame_matches(old(self).explosions@[i], delta_time_ms as int,
                    #[trigger] frames@[i]),
            final(self).live_models()
                == surviving(step_models(old(self).live_models(), delta_time_ms as int)),
            slots_of(final(self).pool.free_seq())
                == slots_of(old(self).pool.free_seq())
                    + expired_slots(step_models(old(self).live_models(), delta_time_ms as int)),
    {
        let dt = delta_time_ms;
        let ghost pre = old(self).explosions@;
        let ghost prem = old(self).live_models();
        let ghost stepped = step_models(prem, dt as int);
        let n = self.explosions.len();
        let mut frames: Vec<FrameResult> = Vec::new();
        let mut survivors: Vec<Explosion> = Vec::new();
        let mut i: usize = 0;
        proof {
            assert(self.explosions@ =~= pre.skip(0));
            assert(stepped.take(0) =~= Seq::<ExplosionModel>::empty());
            assert(models_of(survivors@) =~= surviving(stepped.take(0)));
            assert(slots_of(self.pool.free_seq())
                =~= slots_of(old(self).pool.free_seq()) + expired_slots(stepped.take(0)));
        }
        while i < n
            invariant
                i <= n,
                n == pre.len(),
                dt == delta_time_ms,
                pre == old(self).explosions@,
                prem == old(self).live_models(),
                stepped == step_models(prem, dt as int),
                old(self).wf(),
                self.explosions@ == pre.skip(i as int),
                frames@.len() == i,
                forall|j: int| 0 <= j < i
                    ==> frame_matches(pre[j], dt as int, #[trigger] frames@[j]),
                self.pool.wf(),
                self.pool.cap() == old(self).pool.cap(),
                models_of(survivors@) == surviving(stepped.take(i as int)),
                slots_of(self.pool.free_seq())
                    == slots_of(old(self).pool.free_seq())
                        + expired_slots(stepped.take(i as int)),
                forall|j: int| i <= j < n
                    ==> !self.pool.is_free((#[trigger] pre[j]).image_index as int),
                forall|k: int| 0 <= k < survivors@.len() ==> {
                    let x = #[trigger] survivors@[k];
                    &&& x.wf()
                    &&& x.time_left_ms >= 1
                    &&& (x.image_index as int) < self.pool.cap()
                    &&& !self.pool.is_free(x.image_index as int)
                },
                forall|k1: int, k2: int| 0 <= k1 < k2 < survivors@.len()
                    ==> (#[trigger] survivors@[k1]).image_index
                        != (#[trigger] survivors@[k2]).image_index,
                forall|k: int, j: int| 0 <= k < survivors@.len() && i <= j < n
                    ==> (#[trigger] survivors@[k]).image_index
                        != (#[trigger] pre[j]).image_index,
                forall|j: int|
                    0 <= j < i && tick_time_left(pre[j].time_left_ms as int, dt as int) == 0
                        ==> slots_of(self.pool.free_seq()).contains(
                            (#[trigger] pre[j]).image_index as int),
                forall|j: int|
                    0 <= j < i && tick_time_left(pre[j].time_left_ms as int, dt as int) >= 1
                        ==> exists|k: int| 0 <= k < survivors@.len()
                            && (#[trigger] survivors@[k]).image_index == pre[j].image_index,
            decreases n - i,
        {
            proof {
                assert(pre.skip(i as int)[0] == pre[i as int]);
                assert(pre[i as int].wf());
                assert(pre[i as int].time_left_ms >= 1);
            }
            let mut e = self.explosions.remove(0);
            proof {
                assert(e == pre[i as int]);
                assert(self.explosions@ =~= pre.skip(i as int + 1)) by {
                    assert(self.explosions@ == pre.skip(i as int).remove(0));
                }
            }
            let ghost e0 = e;
            let frame = e.update(dt);
            frames.push(frame);
            proof {
                assert(stepped.take(i as int + 1)
                    =~= stepped.take(i as int).push(stepped[i as int]));
                assert(stepped[i as int] == step_model(prem[i as int], dt as int));
                assert(prem[i as int] == pre[i as int].model());
                assert(e.model() == stepped[i as int]);
                assert(frame_matches(pre[i as int], dt as int, frame));
                lemma_surviving_push(stepped.take(i as int), stepped[i as int]);
                lemma_expired_push(stepped.take(i as int), stepped[i as int]);
                assert(e.time_left_ms as int == stepped[i as int].time_left_ms);
                assert(e.image_index as int == stepped[i as int].slot);
            }
            if e.time_left_ms == 0 {
                let ghost m0 = slots_of(self.pool.free_seq());
                self.pool.release(e.image_index);
                proof {
                    assert(slots_of(self.pool.free_seq())
                        =~= m0.push(e.image_index as int)) by {
                        assert(self.pool.free_seq().len() == m0.len() + 1);
                    }
                    assert(slots_of(self.pool.free_seq())
                        =~= slots_of(old(self).pool.free_seq())
                            + expired_slots(stepped.take(i as int + 1)));
                    assert forall|j: int| i + 1 <= j < n
                        implies !self.pool.is_free((#[trigger] pre[j]).image_index as int) by {
                        let m1 = slots_of(self.pool.free_seq());
                        if m1.contains(pre[j].image_index as int) {
                            let k = choose|k: int|
                                0 <= k < m1.len() && m1[k] == pre[j].image_index as int;
                            if k < m0.len() {
                                assert(m0[k] == pre[j].image_index as int);
                                assert(m0.contains(pre[j].image_index as int));
                            } else {
                                assert(pre[j].image_index == e0.image_index);
                            }
                        }
                    }
                    assert forall|k: int| 0 <= k < survivors@.len() implies {
                        let x = #[trigger] survivors@[k];
                        !self.pool.is_free(x.image_index as int)
                    } by {
                        let x = survivors@[k];
                        let m1 = slots_of(self.pool.free_seq());
                        if m1.contains(x.image_index as int) {
                            let q = choose|q: int|
                                0 <= q < m1.len() && m1[q] == x.image_index as int;
                            if q < m0.len() {
                                assert(m0[q] == x.image_index as int);
                                assert(m0.contains(x.image_index as int));
                            } else {
                                assert(x.image_index == e0.image_index);
                            }
                        }
                    }
                    assert forall|j: int|
                        0 <= j < i + 1
                            && tick_time_left(pre[j].time_left_ms as int, dt as int) == 0
                        implies slots_of(self.pool.free_seq()).contains(
                            (#[trigger] pre[j]).image_index as int) by {
                        if j < i {
                            lemma_push_preserves_contains(
                                m0, e0.image_index as int, pre[j].image_index as int);
                        } else {
                            assert(slots_of(self.pool.free_seq())[m0.len() as int]
                                == e0.image_index as int);
                        }
                    }
                }
            } else {
                let ghost s0 = survivors@;
                survivors.push(e);
                proof {
                    assert(models_of(survivors@)
                        =~= surviving(stepped.take(i as int + 1)));
                    assert forall|j: int|
                        0 <= j < i + 1
                            && tick_time_left(pre[j].time_left_ms as int, dt as int) >= 1
                        implies exists|k: int| 0 <= k < survivors@.len()
                            && (#[trigger] survivors@[k]).image_index
                                == pre[j].image_index by {
                        if j == i {
                            assert(survivors@[survivors@.len() - 1].image_index
                                == pre[j].image_index);
                        } else {
                            let k = choose|k: int| 0 <= k < s0.len()
                                && (#[trigger] s0[k]).image_index == pre[j].image_index;
                            assert(survivors@[k].image_index == pre[j].image_index);
                        }
                    }
                }
            }
            i = i + 1;
        }
        proof {
            assert(stepped.take(n as int) =~= stepped);
        }
        let ghost survq = survivors@;
        self.explosions = survivors;
        proof {
            assert(self.explosions@ == survq);
            assert forall|s: int|
                #![trigger self.pool.is_free(s)]
                0 <= s < self.pool.cap() && !self.pool.is_free(s)
                implies exists|k: int| 0 <= k < self.explosions@.len()
                    && (#[trigger] self.explosions@[k]).image_index as int == s by {
                let m0 = slots_of(old(self).pool.free_seq());
                let m1 = slots_of(self.pool.free_seq());
                assert(!old(self).pool.is_free(s)) by {
                    if old(self).pool.is_free(s) {
                        let k = choose|k: int| 0 <= k < m0.len() && m0[k] == s;
                        assert(m1[k] == s);
                        assert(m1.contains(s));
                    }
                }
                let j = choose|j: int|
                    0 <= j < pre.len() && (#[trigger] pre[j]).image_index as int == s;
                if tick_time_left(pre[j].time_left_ms as int, dt as int) == 0 {
                    assert(m1.contains(s));
                    assert(false);
                } else {
                    let k = choose|k: int| 0 <= k < survq.len()
                        && (#[trigger] survq[k]).image_index == pre[j].image_index;
                    assert(self.explosions@[k].image_index as int == s);
                }
            }
        }
        frames
    }

    /// No double-assignment: at any instant, two distinct live
    /// explosions hold distinct surface slots.
    pub proof fn lemma_no_double_assignment(self, i: int, j: int)
        requires
            self.wf(),
            0 <= i < self.explosions@.len(),
            0 <= j < self.explosions@.len(),
            i != j,
        ensures
            self.explosions@[i].image_index != self.explosions@[j].image_index,
    {
    }

    /// Pool conservation: the free slots and the slots held by live
    /// explosions partition the pool, so their counts always sum to
    /// the capacity.
    pub proof fn lemma_conservation(self)
        requires
            self.wf(),
        ensures
            self.pool.free_count() + self.explosions@.len() == self.pool.cap(),
    {
        broadcast use vstd::seq_lib::seq_to_set_is_finite;

        self.pool.lemma_pool_conservation();
        let slots = self.explosions@.map_values(|e: Explosion| e.image_index as int);
        assert(slots.no_duplicates()) by {
            assert forall|i: int, j: int|
                0 <= i < slots.len() && 0 <= j < slots.len() && i != j
                implies slots[i] != slots[j] by {
                if i < j {
                    self.lemma_no_double_assignment(i, j);
                } else {
                    self.lemma_no_double_assignment(j, i);
                }
            }
        }
        slots.unique_seq_to_set();
        assert(slots.to_set() =~= self.pool.held_set()) by {
            assert forall|s: int| slots.to_set().contains(s)
                implies self.pool.held_set().contains(s) by {
                let i = choose|i: int| 0 <= i < slots.len() && slots[i] == s;
                assert(self.explosions@[i].image_index as int == s);
            }
            assert forall|s: int| self.pool.held_set().contains(s)
                implies slots.to_set().contains(s) by {
                assert(0 <= s < self.pool.cap());
                assert(!self.pool.is_free(s));
                let i = choose|i: int|
                    0 <= i < self.explosions@.len()
                        && (#[trigger] self.explosions@[i]).image_index as int == s;
                assert(slots[i] == s);
            }
        }
    }
}

} // verus!
