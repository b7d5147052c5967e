//! The one source of chance: a uniformly drawn number.

use rand::Rng;
use vstd::prelude::*;

verus! {

/// The lowest face of a die.
pub const DIE_MIN: usize = 1;

/// The highest face of a die.
pub const DIE_MAX: usize = 6;

/// Whether `face` is a face of a die.
pub open spec fn is_die_face(face: usize) -> bool {
    DIE_MIN <= face <= DIE_MAX
}

/// Draws a number from `low..=high` with the thread's random number generator.
///
/// This calls `Rng::gen_range` of the `rand` crate on `rand::thread_rng()`, with
/// the inclusive range `low..=high`. Trusted, not proved: the number returned
/// lies in the range. `gen_range` panics on an empty range, which `requires`
/// leaves out. Nothing is claimed about which number of the range comes back,
/// nor that two calls give the same one. (The generator itself panics where
/// the system cannot seed it when `thread_rng` first sets it up, and where a
/// later reseeding from the system fails; no argument decides either.)
#[verifier::external_body]
pub(crate) fn random_between(low: usize, high: usize) -> (n: usize)
    requires
        low <= high,
    ensures
        low <= n <= high,
{
    rand::thread_rng().gen_range(low..=high)
}

/// Rolls one die.
pub fn roll_die() -> (face: usize)
    ensures
        is_die_face(face),
{
    random_between(DIE_MIN, DIE_MAX)
}

} // verus!
