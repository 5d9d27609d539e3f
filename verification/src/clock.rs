//! Reading the clock.
//!
//! All times in this library are millisecond readings of the clock; durations
//! are milliseconds.
use vstd::prelude::*;

verus! {

#[verifier::external_type_specification]
#[verifier::external_body]
pub struct ExSystemTime(std::time::SystemTime);

#[verifier::external_type_specification]
#[verifier::external_body]
pub struct ExSystemTimeError(std::time::SystemTimeError);

/// `std::time::SystemTime::now()`: the system clock. The reading depends on
/// the moment of the call, so nothing is stated of it.
#[verifier::external_body]
fn system_now() -> std::time::SystemTime {
    std::time::SystemTime::now()
}

/// `SystemTime::duration_since(UNIX_EPOCH)`: the time since the Unix epoch,
/// or, for a reading before it, an error that holds the time until it. Which
/// of the two comes back depends on the reading, so nothing is stated of it.
#[verifier::external_body]
fn since_epoch(t: &std::time::SystemTime) -> Result<std::time::Duration, std::time::SystemTimeError> {
    t.duration_since(std::time::UNIX_EPOCH)
}

/// `SystemTimeError::duration`: how far before the epoch the reading was.
/// Nothing is stated of the duration.
#[verifier::external_body]
fn before_epoch(e: &std::time::SystemTimeError) -> std::time::Duration {
    e.duration()
}

/// `Duration::as_millis`: the whole milliseconds in `d`. The duration is
/// opaque here, so nothing is stated of the count.
#[verifier::external_body]
fn whole_millis(d: &std::time::Duration) -> u128 {
    d.as_millis()
}

/// The system clock in milliseconds since the Unix epoch (UTC): negative for
/// a reading before the epoch, and held to the range of `i64`.
pub(crate) fn utc_now_millis() -> i64 {
    let t = system_now();
    match since_epoch(&t) {
        Ok(d) => {
            let ms = whole_millis(&d);
            if ms > 0x7fff_ffff_ffff_ffff {
                i64::MAX
            } else {
                ms as i64
            }
        },
        Err(e) => {
            let ms = whole_millis(&before_epoch(&e));
            if ms > 0x7fff_ffff_ffff_ffff {
                -0x7fff_ffff_ffff_ffff
            } else {
                -(ms as i64)
            }
        },
    }
}

/// The milliseconds since the Unix epoch that a clock reading `t` stands for:
/// the reading itself, or 0 for a reading before the epoch.
pub open spec fn reading_ms(t: i64) -> int {
    if t < 0 {
        0
    } else {
        t as int
    }
}

/// The milliseconds since the Unix epoch of the clock reading `t`; 0 for a
/// reading before the epoch.
pub fn millis_from_reading(t: i64) -> (r: u64)
    ensures
        r == reading_ms(t),
{
    if t < 0 {
        0
    } else {
        t as u64
    }
}

/// The current time in milliseconds since the Unix epoch; 0 for a reading
/// before the epoch. Whatever the clock reads, the result is what
/// `millis_from_reading` makes of some reading.
pub fn now_ms() -> (r: u64)
    ensures
        exists|t: i64| r == reading_ms(t),
{
    let t = utc_now_millis();
    let r = millis_from_reading(t);
    assert(r == reading_ms(t));
    r
}

/// The first millisecond chrono can represent: January 1 of the year
/// -262143, 00:00:00.000 UTC.
pub const MIN_REPRESENTABLE_MS: i64 = -8334601228800000;

/// The last millisecond chrono can represent: December 31 of the year 262142,
/// 23:59:59.999 UTC.
pub const MAX_REPRESENTABLE_MS: i64 = 8210266876799999;

/// Whether `ms` milliseconds since the Unix epoch is a time that chrono can
/// represent.
pub open spec fn millis_in_range(ms: i64) -> bool {
    MIN_REPRESENTABLE_MS <= ms <= MAX_REPRESENTABLE_MS
}

/// Whether `chrono::DateTime::<Utc>::from_timestamp_millis(ms)` gives a time
/// rather than `None`. In chrono's source it does exactly when the day of
/// `ms` lies between `NaiveDate`'s first and last days (years -262143 to
/// 262142; the day of the epoch being day 719163 from the common era), that
/// is, when `ms` lies between the two constants above.
#[verifier::external_body]
pub(crate) fn millis_representable(ms: i64) -> (r: bool)
    ensures
        r == millis_in_range(ms),
{
    chrono::DateTime::<chrono::Utc>::from_timestamp_millis(ms).is_some()
}

} // verus!
