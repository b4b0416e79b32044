//! Random choices, made by the `rand` crate.
use vstd::prelude::*;
use rand::seq::SliceRandom;

verus! {

/// Calls `SliceRandom::shuffle` with the thread-local generator: the vector
/// afterwards holds the same elements, each as often as before, in an order
/// that chance decides.
#[verifier::external_body]
pub(crate) fn shuffle<T>(v: &mut Vec<T>)
    ensures
        final(v)@.len() == old(v)@.len(),
        final(v)@.to_multiset() == old(v)@.to_multiset(),
{
    v.shuffle(&mut rand::thread_rng());
}

/// Calls `SliceRandom::choose` with the thread-local generator: `None` for an
/// empty vector, else one of its elements, which chance decides.
#[verifier::external_body]
pub(crate) fn pick_one<T: Copy>(v: &Vec<T>) -> (r: Option<T>)
    ensures
        r is None <==> v@.len() == 0,
        r matches Some(x) ==> v@.contains(x),
{
    v.choose(&mut rand::thread_rng()).copied()
}

} // verus!
