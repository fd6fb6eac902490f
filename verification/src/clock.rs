//! The time of day.

use chrono::Utc;
use vstd::prelude::*;

verus! {

/// `chrono::Utc::now` and then `timestamp`: the seconds since the Unix epoch
/// by this machine's clock. Nothing is claimed of the number.
#[verifier::external_body]
pub(crate) fn unix_now() -> i64 {
    Utc::now().timestamp()
}

} // verus!
