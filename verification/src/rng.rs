//! The random source. The generator is `bracket_lib`'s; nothing is known of a
//! draw but the range it lies in, so every function that draws is verified
//! for every value that a draw can have.

use vstd::prelude::*;

verus! {

/// `bracket_lib::random::RandomNumberGenerator`, carried through as an opaque
/// value.
#[verifier::external_type_specification]
#[verifier::external_body]
pub struct ExRandomNumberGenerator(bracket_lib::random::RandomNumberGenerator);

/// `RandomNumberGenerator::range`: a value that is at least `lo` and less than
/// `hi`. The outside function panics on an empty range, which `requires`
/// leaves out.
#[verifier::external_body]
pub(crate) fn roll_range(
    rng: &mut bracket_lib::random::RandomNumberGenerator,
    lo: i32,
    hi: i32,
) -> (roll: i32)
    requires
        lo < hi,
    ensures
        lo <= roll < hi,
{
    rng.range(lo, hi)
}

/// `RandomNumberGenerator::random_slice_index`: nothing for an empty list,
/// else the index of one of its entries. The outside function casts the length
/// to `i32` and adds one, so `requires` keeps the length below `i32::MAX`.
#[verifier::external_body]
pub(crate) fn roll_index<T>(
    rng: &mut bracket_lib::random::RandomNumberGenerator,
    pool: &Vec<T>,
) -> (pick: Option<usize>)
    requires
        pool@.len() < i32::MAX,
    ensures
        pool@.len() == 0 ==> pick is None,
        pool@.len() > 0 ==> pick is Some && pick.unwrap() < pool@.len(),
{
    rng.random_slice_index(pool.as_slice())
}

} // verus!
