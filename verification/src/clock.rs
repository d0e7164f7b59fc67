//! The library's one clock read. Every computation that depends on the time
//! takes it as a plain argument; this is where a caller gets that argument.

use vstd::prelude::*;

verus! {

/// Relies on `chrono::Utc::now` read out with `DateTime::timestamp`: the
/// current time as non-leap seconds since the Unix epoch. The value depends
/// on the system clock, so nothing is promised of it. On a system clock set
/// before the epoch or beyond chrono's representable range, `Utc::now`
/// itself fails the read rather than returning a value.
#[verifier::external_body]
fn unix_now_raw() -> i64 {
    chrono::Utc::now().timestamp()
}

/// The current time as whole seconds since the Unix epoch. The clamp of a
/// negative reading to zero is defensive only: on native targets
/// `chrono::Utc::now` fails the read on a pre-epoch system clock, so the
/// branch is not expected to be taken.
pub fn unix_now() -> (t: u64) {
    let r = unix_now_raw();
    if r < 0 {
        0
    } else {
        r as u64
    }
}

} // verus!
