// The entropy adapters could in principle repeat, but a collision of 128
// random bits has a one in 2^128 chance: a sample disagreeing is a sound
// sanity check, not a strict invariant.

use pillid::rng::bytes;
use pillid::rngs::{non_secure, thread_local};

#[test]
fn test_bytes() {
    let bytes1 = bytes();
    let bytes2 = bytes();
    assert_ne!(bytes1, bytes2);
}

#[test]
fn test_not_zero() {
    let bytes = bytes();
    assert_ne!(bytes, [0; 16]);
}

#[test]
fn rngs_generates_random_vectors() {
    let bytes = pillid::rngs::default(5);

    assert_eq!(bytes.len(), 5);
}

#[test]
fn non_secure_generates_random_vectors() {
    let bytes = non_secure(5);

    assert_eq!(bytes.len(), 5);
}

#[test]
fn thread_local_generates_random_vectors() {
    let bytes = thread_local(5);

    assert_eq!(bytes.len(), 5);
}

#[test]
fn fresh_identifiers_differ() {
    let a = pillid::Pillid::new("uniq");
    let b = pillid::Pillid::new("uniq");
    assert_ne!(a.to_text(), b.to_text());
}

#[test]
fn large_sample_has_no_repeats() {
    let mut seen: Vec<[u8; 16]> = Vec::new();
    for _ in 0..256 {
        let fresh = bytes();
        assert!(!seen.contains(&fresh));
        seen.push(fresh);
    }
}
