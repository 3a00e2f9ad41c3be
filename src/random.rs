use vstd::prelude::*;
use rand::Rng;
use rand::rngs::ThreadRng;

verus! {

#[verifier::external_type_specification]
#[verifier::external_body]
pub struct ExThreadRng(ThreadRng);

/// Relies on `rand::Rng::gen::<bool>`: a fair coin; nothing is known of the
/// outcome.
#[verifier::external_body]
pub(crate) fn coin(rng: &mut ThreadRng) -> (r: bool) {
    rng.gen::<bool>()
}

/// Relies on `rand::Rng::gen_range` over the inclusive range `lo..=hi`: a
/// value inside it. It panics on an empty range, which `requires` excludes.
#[verifier::external_body]
pub(crate) fn draw_between(rng: &mut ThreadRng, lo: i64, hi: i64) -> (r: i64)
    requires
        lo <= hi,
    ensures
        lo <= r <= hi,
{
    rng.gen_range(lo..=hi)
}

} // verus!
