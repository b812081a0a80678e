//! Chance: the two draws that the game makes.

use rand::seq::SliceRandom;
use rand::Rng;
use vstd::prelude::*;

verus! {

/// A number drawn from `low` up to, but not including, `high`.
///
/// This is `rand::Rng::gen_range` on the generator of the thread,
/// `rand::thread_rng()`, with the range `low..high`. It says of the draw only
/// that it lies in the range. The call does not return on an empty range,
/// which is ruled out here, nor where the system cannot seed the generator.
#[verifier::external_body]
pub(crate) fn random_in(low: usize, high: usize) -> (drawn: usize)
    requires
        low < high,
    ensures
        low <= drawn < high,
{
    rand::thread_rng().gen_range(low..high)
}

/// One of `options`, drawn by chance; `None` when there are no options.
///
/// This is `rand::seq::SliceRandom::choose` on the generator of the thread,
/// `rand::thread_rng()`. It says of the draw only that it is one of the
/// options.
#[verifier::external_body]
pub(crate) fn random_choice<T: Copy>(options: &[T]) -> (drawn: Option<T>)
    ensures
        options@.len() == 0 ==> drawn is None,
        options@.len() > 0 ==> drawn is Some && options@.contains(drawn->0),
{
    options.choose(&mut rand::thread_rng()).copied()
}

} // verus!
