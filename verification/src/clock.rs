//! The one place where the library reads the clock.
//!
//! Every rule that depends on time takes the timestamp as an argument and is
//! verified for every value of it; callers that want the current time obtain
//! it here.
use vstd::prelude::*;

verus! {

/// Relies on chrono::Utc::now: the current Unix timestamp in seconds.
/// Nothing is promised of the value, so all logic that consumes it is
/// verified for every timestamp.
#[verifier::external_body]
pub fn now_ts() -> (r: i64)
{
    chrono::Utc::now().timestamp()
}

} // verus!
