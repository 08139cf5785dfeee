//! Wall-clock timestamps.

use time::OffsetDateTime;
use vstd::prelude::*;

verus! {

/// Timestamps are `time::OffsetDateTime` values, carried through opaquely.
#[verifier::external_type_specification]
#[verifier::external_body]
pub struct ExOffsetDateTime(OffsetDateTime);

/// Calls `time::OffsetDateTime::now_utc`: the current date and time in UTC.
/// Nothing is stated of the value, which depends on the system clock.
#[verifier::external_body]
pub(crate) fn now() -> (t: OffsetDateTime) {
    OffsetDateTime::now_utc()
}

} // verus!
