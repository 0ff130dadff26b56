use vstd::prelude::*;

verus! {

/// Relies on `rand::random`: one independent draw from the thread-local
/// generator. Nothing is promised of the value drawn; callers must be
/// correct for every outcome.
pub assume_specification<T>[ rand::random::<T> ]() -> (r: T)
    where
        rand::distributions::Standard: rand::distributions::Distribution<T>,
;

} // verus!
