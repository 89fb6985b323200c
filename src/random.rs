//! Draws from the thread-local random generator.
use rand::seq::IteratorRandom;
use rand::Rng;
use vstd::prelude::*;

verus! {

/// Relies on `rand::random` for `[u8; 6]`: six freshly drawn bytes, of which
/// nothing is promised.
#[verifier::external_body]
pub(crate) fn random_octets() -> (r: [u8; 6]) {
    rand::random()
}

/// Relies on `rand::Rng::gen_range` over `0..bound` on `rand::thread_rng()`:
/// a value below `bound`. It panics on an empty range, hence `bound > 0`.
#[verifier::external_body]
pub(crate) fn random_below(bound: u64) -> (r: u64)
    requires
        bound > 0,
    ensures
        r < bound,
{
    rand::thread_rng().gen_range(0..bound)
}

/// Relies on `rand::seq::IteratorRandom::choose`: `None` if and only if the
/// iterator is empty, else one of its items.
#[verifier::external_body]
pub(crate) fn choose_one(items: &Vec<usize>) -> (r: Option<usize>)
    ensures
        r is None <==> items@.len() == 0,
        r matches Some(x) ==> items@.contains(x),
{
    items.iter().copied().choose(&mut rand::thread_rng())
}

} // verus!
