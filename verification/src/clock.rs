//! The wall clock.

use vstd::prelude::*;

verus! {

/// The local time at the moment of the call, written as RFC 3339.
///
/// Calls `chrono::Local::now` and writes what it gives with
/// `DateTime::to_rfc3339`. The result differs from call to call, so nothing
/// is claimed of it: callers are proved for every text. `chrono` panics
/// where the system clock stands before 1970; no argument of the library
/// has a part in that, so the callers read the clock only where a rule
/// asks for the time.
#[verifier::external_body]
pub(crate) fn now_rfc3339() -> (r: String) {
    chrono::Local::now().to_rfc3339()
}

} // verus!
