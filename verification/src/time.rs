use vstd::prelude::*;

verus! {

/// The earliest representable time, in milliseconds since the Unix epoch
/// (January 1 of year -262143, UTC).
pub const MIN_MILLIS: i64 = -8334601315200000i64;

/// The latest representable time, in milliseconds since the Unix epoch
/// (the last millisecond of year 262142, UTC).
pub const MAX_MILLIS: i64 = 8210266876799999i64;

/// The latest time after which a cron pattern can still be searched: one
/// second before `MAX_MILLIS`.
pub const CRON_AFTER_MAX: i64 = 8210266876798999i64;

/// `chrono::Utc::now`, in milliseconds since the Unix epoch. Nothing is
/// claimed of the reading but that it lies in the representable range.
#[verifier::external_body]
pub fn now_millis() -> (r: i64)
    ensures
        MIN_MILLIS <= r <= MAX_MILLIS,
{
    chrono::Utc::now().timestamp_millis()
}

/// Something that can stand for a delay, in milliseconds.
pub trait IntoDuration {
    fn into_duration(self) -> u64;
}

impl IntoDuration for u64 {
    fn into_duration(self) -> (r: u64)
        ensures
            r == self,
    {
        self
    }
}

/// Something that can stand for a point in time, in milliseconds since the
/// Unix epoch.
pub trait IntoDateTime {
    fn into_datetime(self) -> i64;
}

impl IntoDateTime for i64 {
    fn into_datetime(self) -> (r: i64)
        ensures
            r == self,
    {
        self
    }
}

} // verus!
