//! Random draws, from the thread-local generator of `rand`.
use rand::rngs::ThreadRng;
use rand::Rng;
use vstd::prelude::*;

verus! {

/// The thread-local random number generator of `rand`.
#[verifier::external_type_specification]
#[verifier::external_body]
pub struct ExThreadRng(ThreadRng);

/// `rand::thread_rng`: a handle to the generator of the current thread.
/// Nothing is stated of the handle.
#[verifier::external_body]
pub(crate) fn thread_rng() -> ThreadRng {
    rand::thread_rng()
}

/// `Rng::gen_range` over the inclusive range `lo..=hi` of bytes: the result
/// lies in the range; which byte comes is left open (it is random).
#[verifier::external_body]
pub(crate) fn gen_range_u8_inclusive(rng: &mut ThreadRng, lo: u8, hi: u8) -> (r: u8)
    requires
        lo <= hi,
    ensures
        lo <= r <= hi,
{
    rng.gen_range(lo..=hi)
}

/// `Rng::gen_range` over the half-open range `lo..hi` of indices: the result
/// lies in the range; which index comes is left open (it is random).
#[verifier::external_body]
pub(crate) fn gen_range_usize(rng: &mut ThreadRng, lo: usize, hi: usize) -> (r: usize)
    requires
        lo < hi,
    ensures
        lo <= r < hi,
{
    rng.gen_range(lo..hi)
}

} // verus!
