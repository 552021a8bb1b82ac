//! Randomness for session tokens and temporary file names, behind trusted
//! declarations of the `rand` crate.

use vstd::prelude::*;
use rand::Rng;

verus! {

/// Relies on rand::random: a value drawn from the standard distribution.
/// Nothing can be promised of it.
pub assume_specification<T>[ rand::random::<T> ]() -> (r: T)
    where
        rand::distributions::Standard: rand::distributions::Distribution<T>,
;

/// Relies on rand's `Alphanumeric` distribution: 255 characters drawn from
/// `a`–`z`, `A`–`Z`, `0`–`9`.
#[verifier::external_body]
pub fn random_token() -> (r: String)
    ensures
        r@.len() == 255,
{
    rand::thread_rng().sample_iter(&rand::distributions::Alphanumeric).take(255).map(
        char::from,
    ).collect()
}

/// A fresh suffix of ten lower-case letters for a compiled binary's file
/// name, so that concurrent compiles do not collide.
pub fn random_name_suffix() -> (r: Vec<u8>)
    ensures
        r@.len() == 10,
        forall|i: int| 0 <= i < r@.len() ==> 97 <= #[trigger] r@[i] <= 122,
{
    let mut out: Vec<u8> = Vec::new();
    let mut k: usize = 0;
    while k < 10
        invariant
            k <= 10,
            out@.len() == k,
            forall|i: int| 0 <= i < out@.len() ==> 97 <= #[trigger] out@[i] <= 122,
        decreases 10 - k,
    {
        let b: u8 = rand::random::<u8>();
        out.push(97 + b % 26);
        k = k + 1;
    }
    out
}

} // verus!
