use vstd::prelude::*;

verus! {

/// Uniformly random index below n.
/// Relies on rand::Rng::gen_range over the range 0..n: the result is drawn
/// from that range, so it is always below n; the call panics on an empty
/// range, which the precondition rules out.
#[verifier::external_body]
pub(crate) fn rand_below(n: usize) -> (r: usize)
    requires
        n > 0,
    ensures
        r < n,
{
    rand::Rng::gen_range(&mut rand::thread_rng(), 0..n)
}

} // verus!
