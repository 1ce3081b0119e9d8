//! RGB colour with fixed-point channels: each channel counts
//! thousandths of full intensity ("permille").
use vstd::prelude::*;
use vstd::arithmetic::mul::lemma_mul_inequality;
use vstd::arithmetic::mul::lemma_mul_upper_bound;
use vstd::arithmetic::div_mod::lemma_div_is_ordered;
use vstd::arithmetic::div_mod::lemma_div_multiples_vanish;
use vstd::arithmetic::div_mod::lemma_div_pos_is_pos;

verus! {

/// A colour channel scaled by the fade fraction `time_left / lifetime`:
/// the brightness fade applied to every sparkle each frame.
pub open spec fn faded_channel(c: int, time_left_ms: int, lifetime_ms: int) -> int
    recommends
        lifetime_ms >= 1,
{
    (c * time_left_ms) / lifetime_ms
}

/// A colour with red, green and blue channels in `0..=1000` permille.
#[derive(Clone, Copy, Debug, PartialEq, Eq, Structural)]
pub struct Rgb {
    /// Red channel, permille of full intensity.
    pub r: u32,
    /// Green channel, permille of full intensity.
    pub g: u32,
    /// Blue channel, permille of full intensity.
    pub b: u32,
}

impl Rgb {
    /// Channels do not exceed full intensity.
    pub open spec fn wf(self) -> bool {
        self.r <= 1000 && self.g <= 1000 && self.b <= 1000
    }

    /// Builds the colour with the given permille channels.
    pub fn new(r: u32, g: u32, b: u32) -> (c: Rgb)
        ensures
            c.r == r,
            c.g == g,
            c.b == b,
    {
        Rgb { r, g, b }
    }

    /// Scales every channel by the fade fraction `time_left / lifetime`:
    /// a uniform brightness fade, not an alpha blend.
    pub fn fade(self, time_left_ms: u32, lifetime_ms: u32) -> (c: Rgb)
        requires
            self.wf(),
            lifetime_ms >= 1,
            time_left_ms <= lifetime_ms,
        ensures
            c.r == faded_channel(self.r as int, time_left_ms as int, lifetime_ms as int),
            c.g == faded_channel(self.g as int, time_left_ms as int, lifetime_ms as int),
            c.b == faded_channel(self.b as int, time_left_ms as int, lifetime_ms as int),
            c.wf(),
    {
        proof {
            lemma_faded_channel_le(self.r as int, time_left_ms as int, lifetime_ms as int);
            lemma_faded_channel_le(self.g as int, time_left_ms as int, lifetime_ms as int);
            lemma_faded_channel_le(self.b as int, time_left_ms as int, lifetime_ms as int);
            lemma_mul_upper_bound(self.r as int, 1000, time_left_ms as int, u32::MAX as int);
            lemma_mul_upper_bound(self.g as int, 1000, time_left_ms as int, u32::MAX as int);
            lemma_mul_upper_bound(self.b as int, 1000, time_left_ms as int, u32::MAX as int);
        }
        Rgb {
            r: ((self.r as u64 * time_left_ms as u64) / lifetime_ms as u64) as u32,
            g: ((self.g as u64 * time_left_ms as u64) / lifetime_ms as u64) as u32,
            b: ((self.b as u64 * time_left_ms as u64) / lifetime_ms as u64) as u32,
        }
    }
}

/// A channel never gains intensity from fading: the faded value stays
/// between zero and the base channel.
pub proof fn lemma_faded_channel_le(c: int, time_left_ms: int, lifetime_ms: int)
    requires
        0 <= c,
        0 <= time_left_ms <= lifetime_ms,
        lifetime_ms >= 1,
    ensures
        0 <= faded_channel(c, time_left_ms, lifetime_ms) <= c,
{
    lemma_mul_inequality(time_left_ms, lifetime_ms, c);
    assert(c * time_left_ms == time_left_ms * c) by (nonlinear_arith);
    assert(c * lifetime_ms == lifetime_ms * c) by (nonlinear_arith);
    lemma_div_is_ordered(c * time_left_ms, c * lifetime_ms, lifetime_ms);
    lemma_div_multiples_vanish(c, lifetime_ms);
    lemma_div_pos_is_pos(c * time_left_ms, lifetime_ms);
    assert(c * time_left_ms >= 0) by (nonlinear_arith)
        requires c >= 0 && time_left_ms >= 0;
}

/// At full time left the fade leaves every channel exactly as it was.
pub proof fn lemma_faded_channel_full(c: int, lifetime_ms: int)
    requires
        lifetime_ms >= 1,
    ensures
        faded_channel(c, lifetime_ms, lifetime_ms) == c,
{
    assert(c * lifetime_ms == lifetime_ms * c) by (nonlinear_arith);
    lemma_div_multiples_vanish(c, lifetime_ms);
}

/// At half the lifetime left the faded channel is exactly half the base
/// channel (rounded down).
pub proof fn lemma_faded_channel_half(c: int, time_left_ms: int)
    requires
        c >= 0,
        time_left_ms >= 1,
    ensures
        faded_channel(c, time_left_ms, 2 * time_left_ms) == c / 2,
{
    let t = time_left_ms;
    let q = c / 2;
    let r = c % 2;
    assert(c == 2 * q + r);
    assert(c * t == (2 * t) * q + r * t) by (nonlinear_arith)
        requires c == 2 * q + r;
    assert(0 <= r * t < 2 * t) by (nonlinear_arith)
        requires 0 <= r < 2 && t >= 1;
    assert(((2 * t) * q + r * t) / (2 * t) == q) by {
        vstd::arithmetic::div_mod::lemma_div_multiples_vanish_fancy(q, r * t, 2 * t);
    }
}

/// With no time left the faded channel is exactly zero.
pub proof fn lemma_faded_channel_zero(c: int, lifetime_ms: int)
    requires
        lifetime_ms >= 1,
    ensures
        faded_channel(c, 0, lifetime_ms) == 0,
{
    assert(c * 0 == 0) by (nonlinear_arith);
}

} // verus!
