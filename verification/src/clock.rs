//! The wall clock. Every reading depends on the moment of the call, so no
//! contract says which value comes back: callers state what holds whatever
//! it is, and hand the reading to functions that are exact in it.

use vstd::prelude::*;
use std::time::{SystemTime, UNIX_EPOCH};

verus! {

/// Seconds since the Unix epoch, through `SystemTime::now` and
/// `duration_since(UNIX_EPOCH)`. A clock set before the epoch reads as 0.
/// Nothing is claimed of the value.
#[verifier::external_body]
pub fn current_timestamp() -> (t: u64) {
    SystemTime::now().duration_since(UNIX_EPOCH).map(|d| d.as_secs()).unwrap_or(0)
}

/// Milliseconds since the Unix epoch, through `SystemTime::now` and
/// `duration_since(UNIX_EPOCH)`, cut to 64 bits. A clock set before the
/// epoch reads as 0. Nothing is claimed of the value.
#[verifier::external_body]
pub fn current_millis() -> (t: u64) {
    SystemTime::now().duration_since(UNIX_EPOCH).map(|d| d.as_millis() as u64).unwrap_or(0)
}

} // verus!
