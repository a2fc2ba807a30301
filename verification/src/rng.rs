//! The random byte source backing fresh identifiers.

use vstd::prelude::*;

verus! {

use crate::RANDOMNESS_BYTES;
use rand::TryRngCore;

/// Relies on rand's `OsRng::try_fill_bytes` (backed by the operating
/// system's entropy source): fills the array with cryptographically strong
/// random bytes. A failure to obtain entropy aborts, since no identifier can
/// be generated safely without it. The result depends on the entropy source,
/// so nothing is promised of its value.
#[verifier::external_body]
pub fn bytes() -> [u8; RANDOMNESS_BYTES] {
    let mut buf = [0u8; RANDOMNESS_BYTES];
    rand::rngs::OsRng.try_fill_bytes(&mut buf).expect("no OS entropy available");
    buf
}

} // verus!
