//! Entropy for identifier generation and garbage-collection sampling, drawn
//! from the process-wide random source. Nothing can be promised about which
//! values come back, only about their range and shape.
use vstd::prelude::*;
use crate::model::is_id_char;
use rand::Rng;
use rand::distributions::Alphanumeric;

verus! {

/// Relies on `rand::Rng::gen_range` over `0..bound`: a draw uniform in
/// `[0, bound)`. The call panics on an empty range, so `bound` must be
/// positive.
#[verifier::external_body]
pub(crate) fn random_below(bound: u32) -> (r: u32)
    requires
        bound >= 1,
    ensures
        r < bound,
{
    rand::thread_rng().gen_range(0..bound)
}

/// Relies on `rand::distributions::Alphanumeric`: every sampled byte is one
/// of `A`-`Z`, `a`-`z`, `0`-`9`, so collecting `len` of them gives a string
/// of exactly `len` ASCII-alphanumeric characters.
#[verifier::external_body]
pub(crate) fn random_alphanumeric(len: usize) -> (r: String)
    ensures
        r@.len() == len,
        forall|i: int| 0 <= i < r@.len() ==> is_id_char(r@[i]),
{
    rand::thread_rng().sample_iter(&Alphanumeric).take(len).map(char::from).collect()
}

} // verus!
