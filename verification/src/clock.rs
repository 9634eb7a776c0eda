//! The one place where the library reads the wall clock.

use vstd::prelude::*;

verus! {

/// Relies on chrono's `Utc::now` and `DateTime::to_rfc3339`: returns the
/// current UTC time as an RFC 3339 timestamp string. The value depends on
/// the wall clock, so nothing is promised about it.
#[verifier::external_body]
pub fn now_rfc3339() -> String {
    chrono::Utc::now().to_rfc3339()
}

} // verus!
