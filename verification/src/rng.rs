use rand::distr::Alphanumeric;
use rand::seq::IteratorRandom;
use rand::{Rng, RngExt};
use vstd::prelude::*;

verus! {

/// An ASCII letter or digit.
pub open spec fn is_ascii_alphanumeric(b: u8) -> bool {
    ||| 48 <= b <= 57
    ||| 65 <= b <= 90
    ||| 97 <= b <= 122
}

/// `RngExt::random_range(lo..=hi)` on the thread-local generator of `rand`:
/// a number between `lo` and `hi`, both included. Which one is left to chance;
/// the range must not be empty (rand panics on an empty one).
#[verifier::external_body]
pub(crate) fn random_u16_inclusive(lo: u16, hi: u16) -> (r: u16)
    requires
        lo <= hi,
    ensures
        lo <= r <= hi,
{
    rand::rng().random_range(lo..=hi)
}

/// `RngExt::sample(Alphanumeric)` on the thread-local generator of `rand`:
/// one byte drawn from `A-Z`, `a-z` and `0-9`.
#[verifier::external_body]
pub(crate) fn random_alphanumeric_byte() -> (r: u8)
    ensures
        is_ascii_alphanumeric(r),
{
    rand::rng().sample(Alphanumeric)
}

/// `IteratorRandom::choose` over the indices `0..n` with the thread-local
/// generator of `rand`: no index when `n` is zero, else one below `n`.
#[verifier::external_body]
pub(crate) fn random_index(n: usize) -> (r: Option<usize>)
    ensures
        r is Some <==> n > 0,
        r matches Some(i) ==> i < n,
{
    (0..n).choose(&mut rand::rng())
}

/// `Rng::fill_bytes` on a buffer of 24 bytes with the thread-local generator
/// of `rand`: 24 bytes, whose values are left to chance.
#[verifier::external_body]
pub(crate) fn random_nonce() -> (r: Vec<u8>)
    ensures
        r@.len() == 24,
{
    let mut nonce = [0u8; 24];
    rand::rng().fill_bytes(&mut nonce);
    nonce.to_vec()
}

/// `len` random ASCII letters and digits.
pub fn random_token(len: usize) -> (r: Vec<u8>)
    ensures
        r@.len() == len,
        forall|i: int| 0 <= i < len ==> is_ascii_alphanumeric(#[trigger] r@[i]),
{
    let mut r: Vec<u8> = Vec::new();
    for i in 0..len
        invariant
            r@.len() == i,
            forall|k: int| 0 <= k < i ==> is_ascii_alphanumeric(#[trigger] r@[k]),
    {
        r.push(random_alphanumeric_byte());
    }
    r
}

} // verus!
