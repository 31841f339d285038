//! Random numbers, from the `rand` crate.
use vstd::prelude::*;
use rand::Rng;

verus! {

#[verifier::external_type_specification]
#[verifier::external_body]
pub struct ExThreadRng(rand::rngs::ThreadRng);

/// Calls `rand::thread_rng`, which hands out the generator of the current
/// thread. Nothing is claimed of the generator.
#[verifier::external_body]
pub(crate) fn thread_rng() -> rand::rngs::ThreadRng {
    rand::thread_rng()
}

/// Calls `rand::Rng::gen_range` with the range `low..high`, and hands back
/// beside the drawn value a ghost record of the range it was drawn from and
/// of the value. The
/// crate panics on an empty range, so `low < high` is required; the value is
/// claimed to lie in the range, and nothing more, since it is drawn at random.
#[verifier::external_body]
pub(crate) fn gen_range(rng: &mut rand::rngs::ThreadRng, low: u32, high: u32) -> (r: (u32, Ghost<(u32, u32, u32)>))
    requires
        low < high,
    ensures
        low <= r.0 < high,
        r.1@ == (low, high, r.0),
{
    let v = rng.gen_range(low..high);
    (v, Ghost((low, high, v)))
}

} // verus!
