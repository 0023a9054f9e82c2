//! The one source of chance.

use rand::Rng;
use vstd::prelude::*;

verus! {

/// Draws a number below `bound` from the thread-local generator of the `rand`
/// crate, `rand::thread_rng`, by `Rng::gen_range` on the range `0..bound`.
///
/// Nothing is proved of this function. Its contract relies on `gen_range`
/// returning a member of the range it is given, and leaves out the empty
/// range, on which `gen_range` panics. Which member comes back is left open.
/// The generator seeds itself from the operating system when a thread first
/// uses it, and gives up if the system has no randomness to offer.
#[verifier::external_body]
pub(crate) fn random_below(bound: u32) -> (drawn: u32)
    requires
        bound > 0,
    ensures
        drawn < bound,
{
    rand::thread_rng().gen_range(0..bound)
}

} // verus!
