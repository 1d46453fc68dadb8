//! The random draws behind exercise generation, taken from the `rand` crate.
//! Nothing is claimed of a draw but the range that `rand` documents for it.

use rand::distributions::Uniform;
use rand::rngs::ThreadRng;
use rand::Rng;
use vstd::prelude::*;

verus! {

/// `rand::rngs::ThreadRng`, the thread-local generator; opaque here.
#[verifier::external_type_specification]
#[verifier::external_body]
pub struct ExThreadRng(ThreadRng);

/// Calls `rand::thread_rng`, which hands out the thread's generator.
/// Nothing is stated of the generator.
#[verifier::external_body]
pub(crate) fn thread_rng() -> ThreadRng {
    rand::thread_rng()
}

/// Calls `Rng::gen_range` on the half-open range `low..high`. `rand` panics
/// on an empty range, so `low < high` is required; it documents that the
/// value lies in the range, which is all that is claimed.
#[verifier::external_body]
pub(crate) fn gen_range(rng: &mut ThreadRng, low: i32, high: i32) -> (r: i32)
    requires
        low < high,
    ensures
        low <= r < high,
{
    rng.gen_range(low..high)
}

/// Draws `len` values from `Uniform::from(low..high)` through
/// `Rng::sample_iter`, as `sample_iter(&range).take(len).collect()`.
/// `Uniform::new` panics unless `low < high`; each sample lies in
/// `[low, high)`, and `take` yields exactly `len` of the endless stream.
/// Which values come out is left open.
#[verifier::external_body]
pub(crate) fn sample_uniform(rng: &mut ThreadRng, low: i32, high: i32, len: usize) -> (v: Vec<i32>)
    requires
        low < high,
    ensures
        v@.len() == len,
        forall|i: int| 0 <= i < len ==> low <= #[trigger] v@[i] < high,
{
    let range: Uniform<i32> = Uniform::from(low..high);
    (&mut *rng).sample_iter(&range).take(len).collect()
}

} // verus!
