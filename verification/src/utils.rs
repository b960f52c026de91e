//! Small helpers around outside crates.

use rand::RngExt;
use vstd::prelude::*;

verus! {

/// An ASCII letter or digit.
pub open spec fn is_alnum_byte(b: u8) -> bool {
    (48 <= b <= 57) || (65 <= b <= 90) || (97 <= b <= 122)
}

/// A fresh random alphanumeric string of the given length, as bytes.
///
/// Relies on rand's `Alphanumeric` distribution: every sample is one
/// ASCII letter or digit, so the result has exactly `len` such bytes.
/// Nothing further is assumed of a random value.
#[verifier::external_body]
pub fn random_string(len: usize) -> (r: Vec<u8>)
    ensures
        r@.len() == len,
        forall|i: int| 0 <= i < r@.len() ==> is_alnum_byte(#[trigger] r@[i]),
{
    let mut rng = rand::rng();
    (0..len).map(|_| rng.sample(rand::distr::Alphanumeric)).collect()
}

} // verus!
