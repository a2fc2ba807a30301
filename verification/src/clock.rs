//! The wall-clock source: the current Unix timestamp in seconds.

use vstd::prelude::*;

verus! {

/// Relies on chrono's `Utc::now().timestamp()`: the current Unix time in
/// whole seconds. The value depends on the clock, so nothing is promised of
/// it; times before 1970 fold into `u64` by two's complement.
#[verifier::external_body]
pub fn now_unix_seconds() -> u64 {
    chrono::Utc::now().timestamp() as u64
}

} // verus!
