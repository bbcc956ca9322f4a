//! Wall-clock access for session timestamps.

use vstd::prelude::*;

verus! {

/// Relies on chrono's `Utc::now` and `DateTime::to_rfc3339`: the current
/// UTC time rendered as an RFC 3339 string.  The result depends on the
/// clock, so nothing is promised of its value.
#[verifier::external_body]
pub(crate) fn now_rfc3339() -> String {
    chrono::Utc::now().to_rfc3339()
}

} // verus!
