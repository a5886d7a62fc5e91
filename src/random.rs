use vstd::prelude::*;
use rand::Rng;
use rand::distributions::{Distribution, Weighted, WeightedChoice};

verus! {

/// Sum of a list of weights.
pub open spec fn weight_total(w: Seq<u32>) -> int
    decreases w.len(),
{
    if w.len() == 0 {
        0
    } else {
        weight_total(w.drop_last()) + w.last()
    }
}

/// Relies on rand's `Rng::gen_range` on the thread-local generator: a value
/// in `[low, high)`; it panics when `low >= high`.
#[verifier::external_body]
pub(crate) fn random_range(low: i32, high: i32) -> (r: i32)
    requires
        low < high,
    ensures
        low <= r < high,
{
    rand::thread_rng().gen_range(low, high)
}

/// Relies on `rand::random` for a coin toss; nothing is known of the outcome.
#[verifier::external_body]
pub(crate) fn coin_flip() -> bool {
    rand::random::<bool>()
}

/// Relies on rand's `WeightedChoice`: it returns one of the entries, never one
/// of weight zero; it panics on an empty list and on a total weight of zero or
/// beyond `u32::MAX`.
#[verifier::external_body]
pub(crate) fn weighted_index(weights: &Vec<u32>) -> (r: usize)
    requires
        weights.len() > 0,
        0 < weight_total(weights@) <= u32::MAX,
    ensures
        r < weights.len(),
        weights@[r as int] > 0,
{
    let mut items: Vec<Weighted<usize>> = weights.iter().enumerate().map(
        |(i, w)| Weighted { weight: *w, item: i },
    ).collect();
    WeightedChoice::new(&mut items).sample(&mut rand::thread_rng())
}

} // verus!
