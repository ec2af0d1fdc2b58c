//! Randomness drawn from the `rand` crate.
use vstd::prelude::*;

verus! {

/// Relies on `rand::Rng::gen_range` over `0..n`: a value inside the range,
/// which must not be empty.
#[verifier::external_body]
pub(crate) fn random_below(n: usize) -> (r: usize)
    requires
        n > 0,
    ensures
        r < n,
{
    rand::Rng::gen_range(&mut rand::thread_rng(), 0..n)
}

/// Relies on `rand::seq::index::sample(rng, 10, 4)`: exactly four distinct
/// indices drawn from `0..10`.
#[verifier::external_body]
pub(crate) fn four_distinct_digits() -> (r: Vec<usize>)
    ensures
        r@.len() == 4,
        forall|i: int| 0 <= i < 4 ==> r@[i] < 10,
        forall|i: int, j: int| 0 <= i < j < 4 ==> r@[i] != r@[j],
{
    rand::seq::index::sample(&mut rand::thread_rng(), 10, 4).into_vec()
}

} // verus!
