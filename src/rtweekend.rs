use rand::Rng;
use vstd::prelude::*;

verus! {

/// Relies on rand's `thread_rng().gen_range(min..=max)`: the value lies in
/// the inclusive range, each value equally likely; the call panics only on
/// an empty range, which `requires` rules out.
#[verifier::external_body]
fn gen_range_inclusive(min: i32, max: i32) -> (r: i32)
    requires
        min <= max,
    ensures
        min <= r <= max,
{
    rand::thread_rng().gen_range(min..=max)
}

/// A random integer in `min..=max`, each equally likely.
pub fn random_int(min: i32, max: i32) -> (r: i32)
    requires
        min <= max,
    ensures
        min <= r <= max,
{
    gen_range_inclusive(min, max)
}

} // verus!
