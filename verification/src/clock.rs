use vstd::prelude::*;

verus! {

/// The current time in milliseconds since the Unix epoch, read as
/// `chrono::DateTime::<chrono::Utc>::from(std::time::SystemTime::now()).timestamp_millis()`.
/// Nothing is promised of the value: it is the machine's clock. chrono's
/// conversion from `SystemTime` takes a clock before 1970 as a negative time
/// instead of failing.
#[verifier::external_body]
pub(crate) fn current_time_millis() -> i64 {
    chrono::DateTime::<chrono::Utc>::from(std::time::SystemTime::now()).timestamp_millis()
}

} // verus!
