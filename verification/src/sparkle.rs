//! One light-trail particle of an explosion, and its per-frame step.
//!
//! Each frame a sparkle advances by its direction scaled by the elapsed
//! time, the speed factor and the fade fraction, then drops by the
//! accumulated gravity; the trail segment from the old to the new
//! position is handed back for the host to draw.
use vstd::prelude::*;
use vstd::arithmetic::mul::lemma_mul_inequality;
use vstd::arithmetic::mul::lemma_mul_upper_bound;
use vstd::arithmetic::mul::lemma_mul_nonnegative;
use vstd::arithmetic::div_mod::lemma_div_is_ordered;
use vstd::arithmetic::div_mod::lemma_div_multiples_vanish;
use vstd::arithmetic::div_mod::lemma_div_pos_is_pos;
use crate::color::faded_channel;
use crate::color::lemma_faded_channel_le;
use crate::color::Rgb;
use crate::vector2d::Vector2D;

verus! {

/// Largest accumulated gravity accepted by a sparkle step, in
/// thousandths of a unit per second: ten times the largest lifetime
/// plus ten times the largest single frame delta, both in milliseconds.
pub const GRAVITY_FP_MAX: u64 = 85_899_345_900;

/// Largest position magnitude accepted by a sparkle step, in
/// thousandths of a unit; far below `i64::MAX` so one step cannot
/// overflow.
pub const POS_STEP_MAX: i64 = 200_000_000_000_000_000;

/// How far a sparkle drifts along one axis: its direction component
/// (thousandths of a unit) times the frame delta (milliseconds) times
/// the speed factor of 100 units per second, scaled by the fade
/// fraction `time_left / lifetime`, truncated toward zero.
pub open spec fn drift(d: int, dt: int, time_left_ms: int, lifetime_ms: int) -> int
    recommends
        lifetime_ms >= 1,
{
    if d >= 0 {
        (d * dt * 100 * time_left_ms) / (1000 * lifetime_ms)
    } else {
        -(((-d) * dt * 100 * time_left_ms) / (1000 * lifetime_ms))
    }
}

/// How far a sparkle falls in one frame: the accumulated gravity
/// (thousandths of a unit per second) times the frame delta
/// (milliseconds), over the thousand milliseconds of a second.
pub open spec fn gravity_drop(g: int, dt: int) -> int {
    (g * dt) / 1000
}

/// One particle: a position, a fixed drift direction (its magnitude is
/// the random spawn radius, below one unit, kept on purpose: it varies
/// how far each sparkle travels), and a base colour.
#[derive(Clone, Copy, Debug, PartialEq, Eq, Structural)]
pub struct Sparkle {
    /// Current position, fixed-point.
    pub position: Vector2D,
    /// Per-second drift at full fade, fixed-point; never changes.
    pub direction: Vector2D,
    /// Base colour; the drawn colour is this scaled by the fade fraction.
    pub color: Rgb,
}

/// One trail segment for the host to draw onto the explosion's surface
/// with additive blending.
#[derive(Clone, Copy, Debug, PartialEq, Eq, Structural)]
pub struct Segment {
    /// Where the sparkle was before the step.
    pub start: Vector2D,
    /// Where the sparkle is after the step.
    pub end: Vector2D,
    /// The base colour scaled by the fade fraction.
    pub color: Rgb,
    /// Stroke width in thousandths of a unit: 1.2 units at full fade.
    pub width_permille: u32,
}

/// The value of a sparkle after one step.
pub open spec fn stepped_sparkle(s: Sparkle, dt: int, g: int, time_left_ms: int, lifetime_ms: int) -> Sparkle {
    Sparkle {
        position: Vector2D {
            x: (s.position.x + drift(s.direction.x as int, dt, time_left_ms, lifetime_ms)) as i64,
            y: (s.position.y + drift(s.direction.y as int, dt, time_left_ms, lifetime_ms)
                - gravity_drop(g, dt)) as i64,
        },
        direction: s.direction,
        color: s.color,
    }
}

/// The segment that one step of a sparkle draws.
pub open spec fn sparkle_segment(s: Sparkle, dt: int, g: int, time_left_ms: int, lifetime_ms: int) -> Segment {
    Segment {
        start: s.position,
        end: stepped_sparkle(s, dt, g, time_left_ms, lifetime_ms).position,
        color: Rgb {
            r: faded_channel(s.color.r as int, time_left_ms, lifetime_ms) as u32,
            g: faded_channel(s.color.g as int, time_left_ms, lifetime_ms) as u32,
            b: faded_channel(s.color.b as int, time_left_ms, lifetime_ms) as u32,
        },
        width_permille: faded_channel(1200, time_left_ms, lifetime_ms) as u32,
    }
}

impl Sparkle {
    /// Direction components stay within one unit (the spawn radius is
    /// below one) and the colour channels are valid.
    pub open spec fn wf(self) -> bool {
        &&& -1000 <= self.direction.x <= 1000
        &&& -1000 <= self.direction.y <= 1000
        &&& self.color.wf()
    }

    /// Builds a sparkle at `position` drifting along `direction`.
    pub fn new(position: Vector2D, direction: Vector2D, color: Rgb) -> (s: Sparkle)
        ensures
            s.position == position,
            s.direction == direction,
            s.color == color,
    {
        Sparkle { position, direction, color }
    }

    /// Advances the position by one frame and returns the trail segment
    /// to draw: from the old to the new position, in the base colour and
    /// stroke width both scaled by the fade fraction `time_left / lifetime`.
    pub fn update_and_draw(
        &mut self,
        delta_time_ms: u32,
        gravity_fp: u64,
        time_left_ms: u32,
        lifetime_ms: u32,
    ) -> (seg: Segment)
        requires
            old(self).wf(),
            1 <= time_left_ms <= lifetime_ms,
            gravity_fp <= GRAVITY_FP_MAX,
            -POS_STEP_MAX <= old(self).position.x <= POS_STEP_MAX,
            -POS_STEP_MAX <= old(self).position.y <= POS_STEP_MAX,
        ensures
            final(self).wf(),
            *final(self) == stepped_sparkle(
                *old(self), delta_time_ms as int, gravity_fp as int,
                time_left_ms as int, lifetime_ms as int),
            final(self).position.x == old(self).position.x
                + drift(old(self).direction.x as int, delta_time_ms as int,
                    time_left_ms as int, lifetime_ms as int),
            final(self).position.y == old(self).position.y
                + drift(old(self).direction.y as int, delta_time_ms as int,
                    time_left_ms as int, lifetime_ms as int)
                - gravity_drop(gravity_fp as int, delta_time_ms as int),
            seg == sparkle_segment(
                *old(self), delta_time_ms as int, gravity_fp as int,
                time_left_ms as int, lifetime_ms as int),
    {
        let old_position = self.position;
        let dx = drift_exec(self.direction.x, delta_time_ms, time_left_ms, lifetime_ms);
        let dy = drift_exec(self.direction.y, delta_time_ms, time_left_ms, lifetime_ms);
        let gd = gravity_drop_exec(gravity_fp, delta_time_ms);
        let new_position = old_position.add(Vector2D::new(dx, dy)).sub(Vector2D::new(0, gd));
        self.position = new_position;
        let color = self.color.fade(time_left_ms, lifetime_ms);
        let width = stroke_width(time_left_ms, lifetime_ms);
        Segment { start: old_position, end: new_position, color, width_permille: width }
    }
}

/// The drift along one axis never exceeds 100 fixed-point units per
/// elapsed millisecond (direction within one unit, fade within one).
pub proof fn lemma_drift_bound(d: int, dt: int, time_left_ms: int, lifetime_ms: int)
    requires
        -1000 <= d <= 1000,
        0 <= dt,
        0 <= time_left_ms <= lifetime_ms,
        1 <= lifetime_ms,
    ensures
        -100 * dt <= drift(d, dt, time_left_ms, lifetime_ms) <= 100 * dt,
{
    let m = if d >= 0 { d } else { -d };
    lemma_drift_mag_bound(m, dt, time_left_ms, lifetime_ms);
}

proof fn lemma_drift_mag_bound(m: int, dt: int, time_left_ms: int, lifetime_ms: int)
    requires
        0 <= m <= 1000,
        0 <= dt,
        0 <= time_left_ms <= lifetime_ms,
        1 <= lifetime_ms,
    ensures
        0 <= (m * dt * 100 * time_left_ms) / (1000 * lifetime_ms) <= 100 * dt,
{
    let num = m * dt * 100 * time_left_ms;
    let den = 1000 * lifetime_ms;
    assert(0 <= m * dt * 100 * time_left_ms) by (nonlinear_arith)
        requires 0 <= m && 0 <= dt && 0 <= time_left_ms;
    lemma_div_pos_is_pos(num, den);
    assert(m * dt * 100 * time_left_ms <= (1000 * lifetime_ms) * (100 * dt)) by (nonlinear_arith)
        requires 0 <= m <= 1000 && 0 <= dt && 0 <= time_left_ms <= lifetime_ms;
    lemma_div_is_ordered(num, den * (100 * dt), den);
    lemma_div_multiples_vanish(100 * dt, den);
}

/// The gravity drop is at most `c` fixed-point units per elapsed
/// millisecond whenever the accumulated gravity is at most `1000 * c`.
pub proof fn lemma_gravity_drop_bound(g: int, dt: int, c: int)
    requires
        0 <= g <= 1000 * c,
        0 <= dt,
        0 <= c,
    ensures
        0 <= gravity_drop(g, dt) <= c * dt,
{
    lemma_mul_nonnegative(g, dt);
    lemma_div_pos_is_pos(g * dt, 1000);
    assert(g * dt <= 1000 * (c * dt)) by (nonlinear_arith)
        requires 0 <= g <= 1000 * c && 0 <= dt;
    lemma_div_is_ordered(g * dt, 1000 * (c * dt), 1000);
    lemma_div_multiples_vanish(c * dt, 1000);
}

/// Computes `drift` for one axis without overflow.
fn drift_exec(d: i64, delta_time_ms: u32, time_left_ms: u32, lifetime_ms: u32) -> (r: i64)
    requires
        -1000 <= d <= 1000,
        1 <= lifetime_ms,
        time_left_ms <= lifetime_ms,
    ensures
        r == drift(d as int, delta_time_ms as int, time_left_ms as int, lifetime_ms as int),
        -100 * (delta_time_ms as int) <= r <= 100 * (delta_time_ms as int),
{
    let mag: u64 = if d >= 0 { d as u64 } else { (-d) as u64 };
    proof {
        lemma_mul_nonnegative(mag as int, delta_time_ms as int);
        lemma_mul_upper_bound(mag as int, 1000, delta_time_ms as int, u32::MAX as int);
        lemma_mul_nonnegative(mag as int * (delta_time_ms as int) * 100, time_left_ms as int);
        lemma_mul_upper_bound(
            mag as int * (delta_time_ms as int) * 100,
            1000 * (u32::MAX as int) * 100,
            time_left_ms as int,
            u32::MAX as int,
        );
    }
    let num: u128 = (mag as u128) * (delta_time_ms as u128) * 100 * (time_left_ms as u128);
    let den: u128 = 1000 * (lifetime_ms as u128);
    let q: u128 = num / den;
    proof {
        lemma_drift_mag_bound(mag as int, delta_time_ms as int, time_left_ms as int,
            lifetime_ms as int);
    }
    if d >= 0 {
        q as i64
    } else {
        -(q as i64)
    }
}

/// Computes `gravity_drop` without overflow.
fn gravity_drop_exec(gravity_fp: u64, delta_time_ms: u32) -> (r: i64)
    requires
        gravity_fp <= GRAVITY_FP_MAX,
    ensures
        r == gravity_drop(gravity_fp as int, delta_time_ms as int),
        0 <= r <= 85_899_346 * (delta_time_ms as int),
{
    proof {
        lemma_mul_upper_bound(gravity_fp as int, GRAVITY_FP_MAX as int,
            delta_time_ms as int, u32::MAX as int);
        lemma_gravity_drop_bound(gravity_fp as int, delta_time_ms as int, 85_899_346);
    }
    let q: u128 = (gravity_fp as u128) * (delta_time_ms as u128) / 1000;
    q as i64
}

/// Computes the stroke width `1.2 * fade01` in thousandths of a unit.
fn stroke_width(time_left_ms: u32, lifetime_ms: u32) -> (w: u32)
    requires
        1 <= lifetime_ms,
        time_left_ms <= lifetime_ms,
    ensures
        w == faded_channel(1200, time_left_ms as int, lifetime_ms as int),
        w <= 1200,
{
    proof {
        lemma_faded_channel_le(1200, time_left_ms as int, lifetime_ms as int);
        lemma_mul_inequality(time_left_ms as int, u32::MAX as int, 1200);
    }
    ((1200u64 * time_left_ms as u64) / lifetime_ms as u64) as u32
}

} // verus!
