//! Randomness for spawning explosions, drawn from the `rand` crate.
use vstd::prelude::*;
use rand::Rng;
use crate::color::Rgb;

verus! {

/// Relies on rand's `Rng::gen_range` on a thread-local generator: it
/// returns a uniform value in `[lo, hi)` and panics only when the range
/// is empty, which the precondition rules out.
#[verifier::external_body]
pub(crate) fn random_u32_in(lo: u32, hi: u32) -> (r: u32)
    requires
        lo < hi,
    ensures
        lo <= r < hi,
{
    rand::thread_rng().gen_range(lo..hi)
}

/// Draws a colour with uniform random channels in `[0, 1000)` permille,
/// mirroring uniform random channels in `[0, 1)` of full intensity.
pub fn random_color() -> (c: Rgb)
    ensures
        c.r < 1000,
        c.g < 1000,
        c.b < 1000,
        c.wf(),
{
    let r = random_u32_in(0, 1000);
    let g = random_u32_in(0, 1000);
    let b = random_u32_in(0, 1000);
    Rgb::new(r, g, b)
}

} // verus!
