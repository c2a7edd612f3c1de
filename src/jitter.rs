use vstd::prelude::*;
use nanorand::Rng;
use nanorand::WyRand;
use vstd::arithmetic::div_mod::lemma_fundamental_div_mod_converse;

verus! {

/// Nanoseconds in one second.
pub const NANOS_PER_SEC: u64 = 1_000_000_000;

/// The pseudo-random generator each emitter owns.
#[verifier::external_type_specification]
#[verifier::external_body]
pub struct ExWyRand(WyRand);

/// Relies on `WyRand::new`: a generator seeded from system entropy.
#[verifier::external_body]
pub(crate) fn entropy_rng() -> WyRand {
    WyRand::new()
}

/// Relies on `WyRand::new_seed`: a generator whose sequence is fixed by `seed`.
#[verifier::external_body]
pub(crate) fn seeded_rng(seed: u64) -> WyRand {
    WyRand::new_seed(seed)
}

/// Relies on `WyRand::clone`: a copy of the generator state, which then
/// continues the same sequence independently.
#[verifier::external_body]
pub(crate) fn fork_rng(rng: &WyRand) -> (r: WyRand)
    ensures
        r == *rng,
{
    rng.clone()
}

/// Relies on `Rng::generate_range` for `u64` over `0..=hi`: a value in `[0, hi]`.
#[verifier::external_body]
fn draw_u64_up_to(rng: &mut WyRand, hi: u64) -> (r: u64)
    ensures
        r <= hi,
{
    rng.generate_range(0..=hi)
}

/// Relies on `Rng::generate_range` for `u32` over `0..=hi`: a value in `[0, hi]`.
#[verifier::external_body]
fn draw_u32_up_to(rng: &mut WyRand, hi: u32) -> (r: u32)
    ensures
        r <= hi,
{
    rng.generate_range(0..=hi)
}

/// Combines drawn whole seconds `secs` and sub-second nanoseconds `nanos`,
/// each within the matching part of `bound`, into one delay in nanoseconds.
pub fn jitter_from_draws(bound: u64, secs: u64, nanos: u32) -> (r: u64)
    requires
        secs <= bound / NANOS_PER_SEC,
        nanos as u64 <= bound % NANOS_PER_SEC,
    ensures
        r == secs * NANOS_PER_SEC + nanos as u64,
        r <= bound,
{
    assert(secs * NANOS_PER_SEC + nanos as u64 <= bound) by (nonlinear_arith)
        requires
            secs <= bound / NANOS_PER_SEC,
            nanos as u64 <= bound % NANOS_PER_SEC,
            bound == NANOS_PER_SEC * (bound / NANOS_PER_SEC) + bound % NANOS_PER_SEC,
    ;
    secs * NANOS_PER_SEC + nanos as u64
}

/// Draws one extra delay of at most `bound` nanoseconds. The whole seconds and
/// the sub-second nanoseconds of the bound are drawn independently, so that
/// small bounds keep their resolution, and the sum never exceeds `bound`.
pub fn sample_jitter(rng: &mut WyRand, bound: u64) -> (r: u64)
    ensures
        r <= bound,
        r / NANOS_PER_SEC <= bound / NANOS_PER_SEC,
        r % NANOS_PER_SEC <= bound % NANOS_PER_SEC,
        bound == 0 ==> r == 0,
{
    let secs: u64 = bound / NANOS_PER_SEC;
    let sub: u64 = bound % NANOS_PER_SEC;
    let s: u64 = draw_u64_up_to(rng, secs);
    let n: u32 = draw_u32_up_to(rng, sub as u32);
    let r: u64 = jitter_from_draws(bound, s, n);
    proof {
        lemma_fundamental_div_mod_converse(r as int, NANOS_PER_SEC as int, s as int, n as int);
    }
    r
}

} // verus!
