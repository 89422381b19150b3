//! The time of day.
use vstd::prelude::*;

verus! {

/// `chrono::Utc::now` in the notation of RFC 3339. The result depends on the clock:
/// nothing is claimed of it.
#[verifier::external_body]
pub(crate) fn now_rfc3339() -> (text: String) {
    chrono::Utc::now().to_rfc3339()
}

/// `chrono::Utc::now` in seconds since the epoch. The result depends on the clock:
/// nothing is claimed of it.
#[verifier::external_body]
pub(crate) fn now_timestamp() -> (seconds: i64) {
    chrono::Utc::now().timestamp()
}

} // verus!
