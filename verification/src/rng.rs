//! The random source behind the fruit spawner and the move aggregator: thin
//! trusted wrappers around the `rand` crate. Nothing is promised about which
//! value comes back beyond what the crate documents, so every caller must
//! hold for all admissible outcomes.
use vstd::prelude::*;
use crate::MovementDirection;

verus! {

/// Relies on rand::Rng::gen_range on the thread-local generator: a uniform
/// value in `0..bound`. The call panics only on an empty range, which the
/// precondition excludes.
#[verifier::external_body]
pub(crate) fn random_below(bound: usize) -> (r: usize)
    requires
        bound > 0,
    ensures
        r < bound,
{
    rand::Rng::gen_range(&mut rand::thread_rng(), 0..bound)
}

/// Relies on rand::seq::SliceRandom::choose_multiple: `amount` elements of
/// the slice sampled without repetition, in random order. When the slice has
/// no more than `amount` elements, every element is returned, so the result
/// is then a permutation of the slice.
#[verifier::external_body]
pub(crate) fn choose_random(moves: &Vec<MovementDirection>, amount: usize) -> (r: Vec<
    MovementDirection,
>)
    ensures
        r@.len() == if moves@.len() < amount {
            moves@.len() as int
        } else {
            amount as int
        },
        forall|i: int| 0 <= i < r@.len() ==> moves@.contains(#[trigger] r@[i]),
        r@.to_multiset().subset_of(moves@.to_multiset()),
        moves@.len() <= amount ==> r@.to_multiset() == moves@.to_multiset(),
{
    rand::seq::SliceRandom::choose_multiple(moves.as_slice(), &mut rand::thread_rng(), amount)
        .cloned()
        .collect()
}

} // verus!
