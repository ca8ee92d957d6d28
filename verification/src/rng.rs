//! The random source behind the random-byte instruction.

use vstd::prelude::*;

verus! {

/// Relies on rand::random: one value drawn from the thread-local generator.
/// Nothing is promised of the value; every caller must hold for every byte.
pub assume_specification<T>[ rand::random::<T> ]() -> (r: T)
    where
        rand::distributions::Standard: rand::distributions::Distribution<T>,
;

} // verus!
