use vstd::prelude::*;

verus! {

/// The current time in seconds since the Unix epoch: the system clock,
/// converted by chrono's `From<SystemTime> for DateTime<Utc>`, then
/// `timestamp()`. The conversion handles a clock set before 1970 (it gives
/// a negative count); it fails only beyond chrono's range of about 262 000
/// years from the epoch, which the system clock, a count of nanoseconds in
/// 64 bits (years 1678 to 2262), cannot reach. Nothing is promised of the
/// value: it depends on the clock.
#[verifier::external_body]
pub(crate) fn now() -> i64 {
    chrono::DateTime::<chrono::Utc>::from(std::time::SystemTime::now()).timestamp()
}

} // verus!
