use vstd::prelude::*;

verus! {

/// Relies on rand::Rng::gen_range over the thread-local generator:
/// returns a uniformly drawn value of the half-open range below `n`.
#[verifier::external_body]
pub(crate) fn rand_below(n: usize) -> (r: usize)
    requires
        n > 0,
    ensures
        r < n,
{
    rand::Rng::gen_range(&mut rand::thread_rng(), 0..n)
}

/// Relies on rand::Rng::gen_range over the thread-local generator:
/// returns a uniformly drawn value of the half-open range below `n`.
#[verifier::external_body]
pub(crate) fn rand_u64_below(n: u64) -> (r: u64)
    requires
        n > 0,
    ensures
        r < n,
{
    rand::Rng::gen_range(&mut rand::thread_rng(), 0..n)
}

} // verus!
