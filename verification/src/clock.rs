//! The time and fresh ids, as the machine gives them.

use vstd::prelude::*;

verus! {

/// The year 262142, the last that `chrono` knows, ends before this many
/// milliseconds after 1970 began.
pub const END_OF_TIME: i64 = 9_000_000_000_000_000;

/// `chrono::Utc::now` and `DateTime::to_rfc3339`: the time as text. It depends on
/// the clock of the machine, so nothing is said of it. A clock that is set before
/// 1970 makes the call panic.
#[verifier::external_body]
pub(crate) fn now_text() -> (r: String) {
    chrono::Utc::now().to_rfc3339()
}

/// `chrono::Utc::now` and `DateTime::timestamp_millis`: the milliseconds since
/// 1970 began. They depend on the clock of the machine; `chrono` has no time
/// before 1970 for `now` and none after the year 262142. A clock that is set
/// before 1970 makes the call panic.
#[verifier::external_body]
pub(crate) fn now_ms() -> (r: i64)
    ensures
        0 <= r < END_OF_TIME,
{
    chrono::Utc::now().timestamp_millis()
}

/// `uuid::Uuid::new_v4`, written out by its `Display`: a random id of thirty-two
/// hexadecimal digits and four hyphens. Which one it is depends on chance.
#[verifier::external_body]
pub(crate) fn fresh_uuid() -> (r: String)
    ensures
        r@.len() == 36,
{
    uuid::Uuid::new_v4().to_string()
}

} // verus!
