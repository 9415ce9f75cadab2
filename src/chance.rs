use vstd::prelude::*;
use rand::seq::SliceRandom;
use rand::Rng;

verus! {

/// The thread-local random number generator of `rand`, threaded by reference through
/// every computation that draws.
#[verifier::external_type_specification]
#[verifier::external_body]
pub struct ExThreadRng(rand::rngs::ThreadRng);

/// Relies on `rand::Rng::gen_range`: a uniform draw in the half-open range
/// `[lo, hi)`; it panics when `lo >= hi`, which `requires` leaves out.
#[verifier::external_body]
pub(crate) fn draw_range(rng: &mut rand::rngs::ThreadRng, lo: i32, hi: i32) -> (r: i32)
    requires
        lo < hi,
    ensures
        lo <= r < hi,
{
    rng.gen_range(lo, hi)
}

/// Relies on `rand::seq::SliceRandom::choose`: `None` exactly for an empty slice,
/// otherwise one of its elements.
#[verifier::external_body]
pub(crate) fn choose_from<T: Copy>(v: &Vec<T>, rng: &mut rand::rngs::ThreadRng) -> (r: Option<T>)
    ensures
        r is None <==> v@.len() == 0,
        r matches Some(x) ==> v@.contains(x),
{
    v.as_slice().choose(rng).copied()
}

} // verus!
