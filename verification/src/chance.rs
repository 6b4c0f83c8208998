//! The draws of chance the game makes: percentile rolls and random picks.
//! Only what holds of every outcome is stated.

use vstd::prelude::*;

verus! {

/// A number drawn uniformly from `lo..=hi` (`rand::Rng::gen_range` on the
/// thread's generator, which panics on an empty range). Only its range is
/// stated: the draw rests on chance.
#[verifier::external_body]
pub(crate) fn roll_in(lo: i64, hi: i64) -> (r: i64)
    requires
        lo <= hi,
    ensures
        lo <= r <= hi,
{
    rand::Rng::gen_range(&mut rand::thread_rng(), lo..=hi)
}

/// One element of a slice picked at random (`rand::seq::SliceRandom::choose`
/// with the thread's generator): none exactly when the slice is empty, else
/// one of its elements. Which one rests on chance and is not stated.
#[verifier::external_body]
pub(crate) fn choose_from<T: Copy>(v: &[T]) -> (r: Option<T>)
    ensures
        r is None <==> v@.len() == 0,
        r matches Some(x) ==> v@.contains(x),
{
    rand::seq::SliceRandom::choose(v, &mut rand::thread_rng()).copied()
}

} // verus!
