use vstd::prelude::*;
use rand::rngs::ThreadRng;
use rand::seq::SliceRandom;
use rand::Rng;

verus! {

/// `rand::rngs::ThreadRng`, the handle to a thread's generator. The library
/// carries such a value and hands it to `rand`; it never looks into it.
#[verifier::external_type_specification]
#[verifier::external_body]
pub struct ExThreadRng(rand::rngs::ThreadRng);

/// `rand::thread_rng` hands out the calling thread's generator; nothing is
/// known of the values it will give.
pub assume_specification[ rand::thread_rng ]() -> (rng: ThreadRng)
;

/// Calls `rand::seq::SliceRandom::shuffle`, which swaps items of the slice
/// among themselves: afterwards it holds the same items, each as often as
/// before, in an order that depends on the generator.
#[verifier::external_body]
pub(crate) fn shuffle<T>(items: &mut Vec<T>, rng: &mut ThreadRng)
    ensures
        final(items)@.to_multiset() == old(items)@.to_multiset(),
{
    items.shuffle(rng);
}

/// Calls `rand::Rng::gen` for a `u8`: any of the 256 values may come back.
#[verifier::external_body]
pub(crate) fn random_u8(rng: &mut ThreadRng) -> (value: u8)
{
    rng.gen::<u8>()
}

} // verus!
