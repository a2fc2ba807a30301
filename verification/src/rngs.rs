//! Alternate entropy adapters: heap-allocated random byte vectors of a
//! caller-chosen size, at three strength/speed trade-offs.

use vstd::prelude::*;

verus! {

use rand::Rng;
use rand::SeedableRng;

/// Relies on rand's `StdRng::from_os_rng` and `Rng::fill`: `size` bytes from
/// the default cryptographically strong generator, seeded by the operating
/// system. The bytes themselves depend on that seed, so only the length is
/// promised.
#[verifier::external_body]
pub fn default(size: usize) -> (r: Vec<u8>)
    ensures
        r@.len() == size,
{
    let mut rng = rand::rngs::StdRng::from_os_rng();
    let mut result: Vec<u8> = vec![0u8; size];
    rng.fill(&mut result[..]);
    result
}

/// Relies on rand's `SmallRng::from_os_rng` and `Rng::fill`: `size` bytes
/// from a fast, non-cryptographic generator, seeded by the operating system.
#[verifier::external_body]
pub fn non_secure(size: usize) -> (r: Vec<u8>)
    ensures
        r@.len() == size,
{
    let mut rng = rand::rngs::SmallRng::from_os_rng();
    let mut result: Vec<u8> = vec![0u8; size];
    rng.fill(&mut result[..]);
    result
}

/// Relies on rand's `rng()` (the thread-local generator) and `Rng::fill`:
/// `size` bytes from the calling thread's generator.
#[verifier::external_body]
pub fn thread_local(size: usize) -> (r: Vec<u8>)
    ensures
        r@.len() == size,
{
    let mut rng = rand::rng();
    let mut result: Vec<u8> = vec![0u8; size];
    rng.fill(&mut result[..]);
    result
}

} // verus!
