//! One firework burst: a timed group of sparkles sharing an offscreen
//! surface slot checked out from the pool at spawn and given back by
//! the manager exactly once, when the burst has fully faded.
use vstd::prelude::*;
use vstd::arithmetic::mul::lemma_mul_inequality;
use vstd::arithmetic::div_mod::lemma_div_is_ordered;
use vstd::arithmetic::div_mod::lemma_div_multiples_vanish;
use vstd::arithmetic::div_mod::lemma_div_pos_is_pos;
use crate::pool::SurfacePool;
use crate::rng::random_color;
use crate::rng::random_u32_in;
use crate::sparkle::lemma_drift_bound;
use crate::sparkle::lemma_gravity_drop_bound;
use crate::sparkle::sparkle_segment;
use crate::sparkle::stepped_sparkle;
use crate::sparkle::Segment;
use crate::sparkle::Sparkle;
use crate::sparkle::GRAVITY_FP_MAX;
use crate::vector2d::Vector2D;
use crate::FireworkError;

verus! {

/// Length of the final fade-out window, in milliseconds: the
/// compositing alpha falls linearly to zero over the last second of
/// life, whatever the total lifetime.
pub const FADE_START_MS: u32 = 1000;

/// The time left after one frame of `delta_time_ms`, floored at zero.
pub open spec fn tick_time_left(time_left_ms: int, delta_time_ms: int) -> int {
    if delta_time_ms >= time_left_ms {
        0
    } else {
        time_left_ms - delta_time_ms
    }
}

/// The compositing alpha, in permille: full while more than the fade
/// window is left, then exactly `time_left / FADE_START` of full.
pub open spec fn alpha_spec(time_left_ms: int) -> int {
    if time_left_ms > FADE_START_MS {
        FADE_START_MS as int
    } else {
        time_left_ms
    }
}

/// The accumulated gravity after one frame: it grows by
/// `9.82 * delta_time` units per second, in fixed point.
pub open spec fn ticked_gravity(gravity_fp: int, delta_time_ms: int) -> int {
    gravity_fp + (982 * delta_time_ms) / 100
}

/// How far from zero a sparkle position can be, in fixed point: the
/// spawn origin is bounded by the surface size, and each elapsed
/// millisecond of life moves a sparkle by a bounded amount. After the
/// final (expiring) frame one more step of arbitrary frame delta is
/// allowed for.
pub open spec fn pos_bound(lifetime_ms: int, time_left_ms: int) -> int {
    if time_left_ms >= 1 {
        5_000_000_000_000 + (lifetime_ms - time_left_ms) * 43_000_000
    } else {
        5_000_000_000_000 + lifetime_ms * 43_000_000 + 400_000_000_000_000_000
    }
}

/// Whether both components of `v` are within `b` of zero.
pub open spec fn within(v: Vector2D, b: int) -> bool {
    -b <= v.x <= b && -b <= v.y <= b
}

/// The ghost value of an explosion: every field that the per-frame
/// step reads or writes, with the sparkles as a sequence.
#[verifier::ext_equal]
pub ghost struct ExplosionModel {
    pub lifetime_ms: int,
    pub time_left_ms: int,
    pub gravity_fp: int,
    pub slot: int,
    pub sparkles: Seq<Sparkle>,
}

/// The model after one frame of `delta_time_ms`.
pub open spec fn step_model(m: ExplosionModel, delta_time_ms: int) -> ExplosionModel {
    ExplosionModel {
        lifetime_ms: m.lifetime_ms,
        time_left_ms: tick_time_left(m.time_left_ms, delta_time_ms),
        gravity_fp: ticked_gravity(m.gravity_fp, delta_time_ms),
        slot: m.slot,
        sparkles: m.sparkles.map_values(
            |s: Sparkle| stepped_sparkle(
                s, delta_time_ms, ticked_gravity(m.gravity_fp, delta_time_ms),
                m.time_left_ms, m.lifetime_ms)),
    }
}

/// What one explosion hands the host for one frame: the trail segments
/// to draw on its surface, the alpha to composite that surface with,
/// and whether the surface was cleared because the explosion expired.
pub struct FrameResult {
    /// The pool slot of the surface to draw on and composite.
    pub slot: usize,
    /// Compositing alpha in permille; zero exactly when expired.
    pub alpha_permille: u32,
    /// One trail segment per sparkle, in sparkle order.
    pub segments: Vec<Segment>,
    /// True when the explosion expired this frame and its surface was
    /// cleared to transparent.
    pub surface_cleared: bool,
}

/// Whether `f` is exactly the frame that one update of `e` by
/// `delta_time_ms` reports: its slot, its compositing alpha, whether
/// its surface was cleared, and one trail segment per sparkle.
pub open spec fn frame_matches(e: Explosion, delta_time_ms: int, f: FrameResult) -> bool {
    &&& f.slot == e.image_index
    &&& f.alpha_permille as int == alpha_spec(tick_time_left(e.time_left_ms as int, delta_time_ms))
    &&& (f.surface_cleared <==> tick_time_left(e.time_left_ms as int, delta_time_ms) == 0)
    &&& f.segments@.len() == e.sparkles@.len()
    &&& forall|j: int| 0 <= j < e.sparkles@.len()
        ==> f.segments@[j] == sparkle_segment(
            e.sparkles@[j], delta_time_ms,
            ticked_gravity(e.gravity_fp as int, delta_time_ms),
            e.time_left_ms as int, e.lifetime_ms as int)
}

/// What a freshly spawned explosion holds: full time left, no
/// accumulated gravity, one sparkle per given direction, all sparkles
/// at one random origin at least 50 units inside the surface edges,
/// coloured by index parity from two random base colours.
pub open spec fn spawned_explosion(
    e: Explosion,
    lifetime_ms: u32,
    directions: Seq<Vector2D>,
    surface_width: u32,
    surface_height: u32,
) -> bool {
    &&& e.wf()
    &&& e.lifetime_ms == lifetime_ms
    &&& e.time_left_ms == lifetime_ms
    &&& e.gravity_fp == 0
    &&& e.sparkles@.len() == directions.len()
    &&& forall|i: int| 0 <= i < directions.len()
        ==> (#[trigger] e.sparkles@[i]).direction == directions[i]
    &&& forall|i: int| 0 <= i < e.sparkles@.len()
        ==> (#[trigger] e.sparkles@[i]).position == e.sparkles@[0].position
    &&& (e.sparkles@.len() >= 1 ==> {
        &&& 50_000 <= e.sparkles@[0].position.x < (surface_width as int - 50) * 1000
        &&& 50_000 <= e.sparkles@[0].position.y < (surface_height as int - 50) * 1000
    })
    &&& forall|i: int, j: int|
        0 <= i < e.sparkles@.len() && 0 <= j < e.sparkles@.len() && i % 2 == j % 2
            ==> (#[trigger] e.sparkles@[i]).color == (#[trigger] e.sparkles@[j]).color
    &&& forall|i: int| 0 <= i < e.sparkles@.len()
        ==> (#[trigger] e.sparkles@[i]).color.r < 1000
            && e.sparkles@[i].color.g < 1000
            && e.sparkles@[i].color.b < 1000
}

/// A timed burst of sparkles drawing onto one pooled surface slot.
pub struct Explosion {
    /// Total life in milliseconds; at least one.
    pub lifetime_ms: u32,
    /// Milliseconds of life left; at most `lifetime_ms`.
    pub time_left_ms: u32,
    /// The sparkles of this burst; their number never changes.
    pub sparkles: Vec<Sparkle>,
    /// The pool slot of the offscreen surface this burst draws on.
    pub image_index: usize,
    /// Accumulated downward pull, thousandths of a unit per second.
    pub gravity_fp: u64,
}

impl Explosion {
    /// Time left never exceeds the lifetime, the accumulated gravity
    /// and the sparkle positions are bounded by the elapsed life, and
    /// every sparkle is itself well-formed.
    pub open spec fn wf(self) -> bool {
        &&& 1 <= self.lifetime_ms
        &&& self.time_left_ms <= self.lifetime_ms
        &&& (self.time_left_ms >= 1 ==> self.gravity_fp as int
            <= 10 * (self.lifetime_ms as int - self.time_left_ms as int))
        &&& (self.time_left_ms == 0 ==> self.gravity_fp as int
            <= 10 * self.lifetime_ms as int + 42_949_672_950)
        &&& forall|i: int| 0 <= i < self.sparkles@.len()
            ==> (#[trigger] self.sparkles@[i]).wf()
        &&& forall|i: int| 0 <= i < self.sparkles@.len()
            ==> within((#[trigger] self.sparkles@[i]).position,
                pos_bound(self.lifetime_ms as int, self.time_left_ms as int))
    }

    /// The ghost value of this explosion.
    pub open spec fn model(self) -> ExplosionModel {
        ExplosionModel {
            lifetime_ms: self.lifetime_ms as int,
            time_left_ms: self.time_left_ms as int,
            gravity_fp: self.gravity_fp as int,
            slot: self.image_index as int,
            sparkles: self.sparkles@,
        }
    }

    /// Advances the burst by one frame: accumulates gravity, steps and
    /// draws every sparkle at the fade fraction of the frame's start,
    /// then decrements the time left (floored at zero) and reports the
    /// compositing alpha of the frame. An expired explosion must not be
    /// updated again; the manager reaps it instead.
    pub fn update(&mut self, delta_time_ms: u32) -> (out: FrameResult)
        requires
            old(self).wf(),
            old(self).time_left_ms >= 1,
        ensures
            final(self).wf(),
            final(self).model() == step_model(old(self).model(), delta_time_ms as int),
            final(self).lifetime_ms == old(self).lifetime_ms,
            final(self).image_index == old(self).image_index,
            final(self).time_left_ms as int
                == tick_time_left(old(self).time_left_ms as int, delta_time_ms as int),
            out.slot == old(self).image_index,
            out.alpha_permille as int == alpha_spec(final(self).time_left_ms as int),
            out.alpha_permille <= 1000,
            out.surface_cleared <==> final(self).time_left_ms == 0,
            out.segments@.len() == old(self).sparkles@.len(),
            forall|i: int| 0 <= i < out.segments@.len()
                ==> out.segments@[i] == sparkle_segment(
                    old(self).sparkles@[i], delta_time_ms as int,
                    ticked_gravity(old(self).gravity_fp as int, delta_time_ms as int),
                    old(self).time_left_ms as int, old(self).lifetime_ms as int),
    {
        let tl = self.time_left_ms;
        let l = self.lifetime_ms;
        let dt = delta_time_ms;
        proof {
            lemma_gravity_step_le(dt as int);
        }
        let add: u64 = (982u64 * (dt as u64)) / 100;
        self.gravity_fp = self.gravity_fp + add;
        let g_new = self.gravity_fp;
        let mut segments: Vec<Segment> = Vec::new();
        let n = self.sparkles.len();
        let mut i: usize = 0;
        while i < n
            invariant
                i <= n,
                n == self.sparkles@.len(),
                self.sparkles@.len() == old(self).sparkles@.len(),
                segments@.len() == i,
                self.lifetime_ms == old(self).lifetime_ms,
                self.time_left_ms == old(self).time_left_ms,
                self.image_index == old(self).image_index,
                self.gravity_fp == g_new,
                tl == old(self).time_left_ms,
                l == old(self).lifetime_ms,
                dt == delta_time_ms,
                old(self).wf(),
                old(self).time_left_ms >= 1,
                g_new as int == ticked_gravity(old(self).gravity_fp as int, dt as int),
                g_new as int <= 10 * (l as int - tl as int) + 10 * (dt as int),
                g_new <= GRAVITY_FP_MAX,
                forall|j: int| i <= j < n
                    ==> #[trigger] self.sparkles@[j] == old(self).sparkles@[j],
                forall|j: int| 0 <= j < i
                    ==> #[trigger] self.sparkles@[j] == stepped_sparkle(
                        old(self).sparkles@[j], dt as int, g_new as int, tl as int, l as int),
                forall|j: int| 0 <= j < i
                    ==> #[trigger] segments@[j] == sparkle_segment(
                        old(self).sparkles@[j], dt as int, g_new as int, tl as int, l as int),
            decreases n - i,
        {
            proof {
                assert(old(self).sparkles@[i as int].wf());
                assert(within(old(self).sparkles@[i as int].position,
                    pos_bound(l as int, tl as int)));
                lemma_mul_inequality(l as int - tl as int, 4_294_967_295, 43_000_000);
            }
            let mut s = self.sparkles[i];
            let seg = s.update_and_draw(dt, g_new, tl, l);
            self.sparkles.set(i, s);
            segments.push(seg);
            i = i + 1;
        }
        let new_tl = if dt >= tl { 0 } else { tl - dt };
        self.time_left_ms = new_tl;
        let alpha = if new_tl > FADE_START_MS { FADE_START_MS } else { new_tl };
        proof {
            assert forall|j: int| 0 <= j < n implies
                (#[trigger] self.sparkles@[j]).wf()
                && within(self.sparkles@[j].position, pos_bound(l as int, new_tl as int)) by {
                let pre = old(self).sparkles@[j];
                let dti = dt as int;
                lemma_drift_bound(pre.direction.x as int, dti, tl as int, l as int);
                lemma_drift_bound(pre.direction.y as int, dti, tl as int, l as int);
                if new_tl >= 1 {
                    lemma_gravity_drop_bound(g_new as int, dti, 42_949_673);
                } else {
                    lemma_gravity_drop_bound(g_new as int, dti, 85_899_346);
                    lemma_mul_inequality(dti, 4_294_967_295, 85_899_446);
                }
            }
            assert(self.sparkles@ =~= old(self).sparkles@.map_values(
                |s: Sparkle| stepped_sparkle(
                    s, dt as int, ticked_gravity(old(self).gravity_fp as int, dt as int),
                    tl as int, l as int)));
            assert(self.model() =~= step_model(old(self).model(), dt as int));
        }
        FrameResult {
            slot: self.image_index,
            alpha_permille: alpha,
            segments,
            surface_cleared: new_tl == 0,
        }
    }

    /// Spawns a new explosion: validates the configuration, checks one
    /// surface slot out of the pool, picks a random origin at least 50
    /// units from every surface edge and two random base colours, builds
    /// one sparkle per given direction (alternating the two colours by
    /// index parity, all at the origin), and appends the explosion to
    /// the live collection. On any failure nothing is changed: no slot
    /// is taken and no explosion or sparkle is created. The caller
    /// supplies one drift direction per sparkle, each within one unit
    /// per component (a unit direction scaled by a spawn radius below
    /// one).
    pub fn spawn(
        lifetime_ms: u32,
        directions: &Vec<Vector2D>,
        surface_width: u32,
        surface_height: u32,
        pool: &mut SurfacePool,
        explosions: &mut Vec<Explosion>,
    ) -> (r: Result<(), FireworkError>)
        requires
            old(pool).wf(),
            forall|i: int| 0 <= i < directions@.len()
                ==> -1000 <= (#[trigger] directions@[i]).x <= 1000
                    && -1000 <= directions@[i].y <= 1000,
        ensures
            final(pool).wf(),
            final(pool).cap() == old(pool).cap(),
            (r == Err::<(), FireworkError>(FireworkError::InvalidConfiguration))
                <==> (lifetime_ms == 0 || directions@.len() == 0
                    || surface_width <= 100 || surface_height <= 100),
            (r == Err::<(), FireworkError>(FireworkError::Exhausted))
                <==> (lifetime_ms >= 1 && directions@.len() >= 1
                    && surface_width > 100 && surface_height > 100
                    && old(pool).free_count() == 0),
            r is Err ==> final(pool).free_seq() == old(pool).free_seq()
                && final(explosions)@ == old(explosions)@,
            r is Ok ==> {
                &&& old(pool).free_count() >= 1
                &&& final(pool).free_seq() == old(pool).free_seq().drop_last()
                &&& final(explosions)@.len() == old(explosions)@.len() + 1
                &&& forall|i: int| 0 <= i < old(explosions)@.len()
                    ==> final(explosions)@[i] == old(explosions)@[i]
                &&& spawned_explosion(
                    final(explosions)@.last(), lifetime_ms, directions@,
                    surface_width, surface_height)
                &&& final(explosions)@.last().image_index == old(pool).free_seq().last()
                &&& old(pool).is_free(final(explosions)@.last().image_index as int)
                &&& !final(pool).is_free(final(explosions)@.last().image_index as int)
                &&& final(explosions)@.last().image_index < old(pool).cap()
            },
    {
        if lifetime_ms == 0 || directions.len() == 0 || surface_width <= 100
            || surface_height <= 100 {
            return Err(FireworkError::InvalidConfiguration);
        }
        let slot = match pool.acquire() {
            Err(e) => {
                return Err(e);
            },
            Ok(s) => s,
        };
        let ox = random_u32_in(50, surface_width - 50);
        let oy = random_u32_in(50, surface_height - 50);
        let origin = Vector2D::new((ox as i64) * 1000, (oy as i64) * 1000);
        let color1 = random_color();
        let color2 = random_color();
        let n = directions.len();
        let mut sparkles: Vec<Sparkle> = Vec::new();
        let mut i: usize = 0;
        while i < n
            invariant
                i <= n,
                n == directions@.len(),
                sparkles@.len() == i,
                forall|j: int| 0 <= j < i
                    ==> (#[trigger] sparkles@[j]).position == origin
                        && sparkles@[j].direction == directions@[j]
                        && sparkles@[j].color == (if j % 2 == 0 { color1 } else { color2 }),
            decreases n - i,
        {
            let color = if i % 2 == 0 { color1 } else { color2 };
            let direction = directions[i];
            sparkles.push(Sparkle::new(origin, direction, color));
            i = i + 1;
        }
        let e = Explosion {
            lifetime_ms,
            time_left_ms: lifetime_ms,
            sparkles,
            image_index: slot,
            gravity_fp: 0,
        };
        proof {
            assert(e.wf()) by {
                assert(forall|j: int| 0 <= j < e.sparkles@.len()
                    ==> (#[trigger] e.sparkles@[j]).position == origin);
                assert(pos_bound(e.lifetime_ms as int, e.time_left_ms as int)
                    == 5_000_000_000_000 + (e.lifetime_ms as int - e.time_left_ms as int)
                        * 43_000_000);
                assert((e.lifetime_ms as int - e.time_left_ms as int) * 43_000_000 == 0)
                    by (nonlinear_arith)
                    requires e.lifetime_ms == e.time_left_ms;
            }
        }
        explosions.push(e);
        Ok(())
    }

    /// The pool slot of the surface this explosion draws on. Two live
    /// explosions never share a slot, so this is also its identity.
    pub fn get_image(&self) -> (slot: usize)
        ensures
            slot == self.image_index,
    {
        self.image_index
    }
}

/// Explosion equality is identity: two explosions are the same exactly
/// when they hold the same surface slot, which no two live explosions
/// ever share.
impl PartialEq for Explosion {
    fn eq(&self, other: &Explosion) -> (r: bool) {
        self.image_index == other.image_index
    }
}

impl vstd::std_specs::cmp::PartialEqSpecImpl for Explosion {
    open spec fn obeys_eq_spec() -> bool {
        true
    }

    open spec fn eq_spec(&self, other: &Explosion) -> bool {
        self.image_index == other.image_index
    }
}

/// One frame of gravity accumulation is below ten fixed-point units
/// per elapsed millisecond.
pub proof fn lemma_gravity_step_le(delta_time_ms: int)
    requires
        0 <= delta_time_ms,
    ensures
        0 <= (982 * delta_time_ms) / 100 <= 10 * delta_time_ms,
{
    lemma_div_pos_is_pos(982 * delta_time_ms, 100);
    lemma_div_is_ordered(982 * delta_time_ms, 1000 * delta_time_ms, 100);
    lemma_div_multiples_vanish(10 * delta_time_ms, 100);
    assert(1000 * delta_time_ms == 100 * (10 * delta_time_ms));
}

/// Fade monotonicity: a frame of positive elapsed time strictly
/// lowers the time left until it reaches zero, never raises the
/// compositing alpha, and drives the alpha to exactly zero when the
/// time left reaches zero.
pub proof fn lemma_fade_monotonicity(time_left_ms: int, delta_time_ms: int)
    requires
        0 <= time_left_ms,
        1 <= delta_time_ms,
    ensures
        tick_time_left(time_left_ms, delta_time_ms) <= time_left_ms,
        time_left_ms >= 1 ==> tick_time_left(time_left_ms, delta_time_ms) < time_left_ms,
        alpha_spec(tick_time_left(time_left_ms, delta_time_ms)) <= alpha_spec(time_left_ms),
        tick_time_left(time_left_ms, delta_time_ms) == 0
            ==> alpha_spec(tick_time_left(time_left_ms, delta_time_ms)) == 0,
{
}

/// The alpha never moves against the time left: less time left never
/// means more alpha, and the alpha is zero exactly at zero time left.
pub proof fn lemma_alpha_monotone(t1: int, t2: int)
    requires
        0 <= t1 <= t2,
    ensures
        alpha_spec(t1) <= alpha_spec(t2),
        alpha_spec(t1) == 0 <==> t1 == 0,
{
}

} // verus!
