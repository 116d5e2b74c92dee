//! Random draws from the thread's generator.

use rand::Rng;
use vstd::prelude::*;

verus! {

/// Fills a fresh buffer with `rand::Rng::fill` on `rand::thread_rng()`. Only the
/// length is claimed; the bytes differ from call to call. No allocation can be larger
/// than `isize::MAX` bytes, so such lengths are left out.
#[verifier::external_body]
pub(crate) fn random_bytes(len: usize) -> (bytes: Vec<u8>)
    requires
        len <= isize::MAX,
    ensures
        bytes@.len() == len,
{
    let mut bytes = vec![0u8; len];
    rand::thread_rng().fill(&mut bytes[..]);
    bytes
}

/// Draws with `rand::Rng::gen_range` on `rand::thread_rng()` over the closed range
/// `low..=high`. Claimed: the draw lies in that range. `gen_range` panics on an empty
/// range, so `low <= high` is asked for.
#[verifier::external_body]
pub(crate) fn random_between(low: u64, high: u64) -> (draw: u64)
    requires
        low <= high,
    ensures
        low <= draw <= high,
{
    rand::thread_rng().gen_range(low..=high)
}

} // verus!
