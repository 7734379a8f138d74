//! The two values that the storage takes from its surroundings: the current
//! time and fresh random identifiers.

use vstd::prelude::*;

use crate::task::Timestamp;

verus! {

/// The current UTC time as read by `chrono::Utc::now()`, in whole seconds
/// since the Unix epoch (`DateTime::timestamp`) and the nanoseconds past that
/// second (`DateTime::timestamp_subsec_nanos`). `Utc::now` builds the time
/// from the system clock's duration since the epoch (it panics on a clock
/// set before the epoch), so the seconds are not negative and the nanoseconds
/// are those of a `Duration`, below one billion. Nothing else is claimed: the
/// value depends on the clock.
#[verifier::external_body]
fn clock() -> (reading: (i64, u32))
    ensures
        reading.0 >= 0,
        reading.1 < 1_000_000_000,
{
    let now = chrono::Utc::now();
    (now.timestamp(), now.timestamp_subsec_nanos())
}

/// The current UTC time in nanoseconds since the Unix epoch.
pub(crate) fn now() -> (t: Timestamp)
    ensures
        t >= 0,
{
    let (secs, nanos) = clock();
    (secs as i128) * 1_000_000_000 + (nanos as i128)
}

/// A fresh identifier: a random (version 4) UUID from `uuid::Uuid::new_v4()`,
/// rendered by its `Display` impl in the hyphenated form, which is always
/// 36 characters long. Nothing else is claimed: the value is random, and its
/// uniqueness is a matter of probability, not of the code.
#[verifier::external_body]
pub(crate) fn new_id() -> (id: String)
    ensures
        id@.len() == 36,
{
    uuid::Uuid::new_v4().to_string()
}

} // verus!
