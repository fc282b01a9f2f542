//! The seedable random stream shared by seeding and mutation: libafl's
//! standard generator, behind two draws.
use vstd::prelude::*;
use libafl_bolts::rands::Rand;

verus! {

#[verifier::external_type_specification]
#[verifier::external_body]
pub struct ExStdRand(libafl_bolts::rands::RomuDuoJrRand);

/// Relies on `Rand::next` of libafl's standard generator: the next 64-bit
/// value of the stream. Nothing is promised about the value.
#[verifier::external_body]
pub(crate) fn draw_u64(rng: &mut libafl_bolts::rands::RomuDuoJrRand) -> (r: u64) {
    rng.next()
}

/// Relies on `Rand::below_or_zero` of libafl's standard generator: a value
/// below `n`, or zero when `n` is zero.
#[verifier::external_body]
pub(crate) fn draw_below(rng: &mut libafl_bolts::rands::RomuDuoJrRand, n: usize) -> (r: usize)
    ensures
        n > 0 ==> r < n,
        n == 0 ==> r == 0,
{
    rng.below_or_zero(n)
}

} // verus!
