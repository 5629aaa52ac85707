//! Instants, elapsed time and calendar days, all as plain integers.

use vstd::prelude::*;

verus! {

/// Milliseconds in one UTC calendar day.
pub const MILLIS_PER_DAY: i64 = 86_400_000;

/// Milliseconds in one hour.
pub const MILLIS_PER_HOUR: i64 = 3_600_000;

/// The time that passed from `from` to `to`, in milliseconds. An interval
/// cannot be negative: where `to` lies before `from`, nothing has passed.
pub open spec fn elapsed_ms(from: i64, to: i64) -> nat {
    if to >= from {
        (to - from) as nat
    } else {
        0
    }
}

/// The UTC calendar day on which the instant `at` falls, counted from
/// 1970-01-01 as day 0. Instants before the epoch fall on negative days.
pub open spec fn day_of(at: i64) -> int {
    at as int / 86_400_000
}

/// The hour of the UTC day, 0 to 23, in which the instant `at` falls.
pub open spec fn hour_of(at: i64) -> int {
    (at as int % 86_400_000) / 3_600_000
}

/// Reads the system clock through `chrono::Utc::now` and hands back
/// `DateTime::timestamp_millis` of it. Nothing is claimed of the value: two
/// reads may return anything, in any order. `Utc::now` panics on a machine
/// whose clock stands before 1970.
#[verifier::external_body]
pub(crate) fn now_millis() -> i64 {
    chrono::Utc::now().timestamp_millis()
}

/// Computes [`elapsed_ms`].
pub fn elapsed_between(from: i64, to: i64) -> (ms: u64)
    ensures
        ms == elapsed_ms(from, to),
{
    if to >= from {
        let wide: i128 = to as i128 - from as i128;
        wide as u64
    } else {
        0
    }
}

/// Computes [`day_of`].
pub fn day_number(at: i64) -> (day: i64)
    ensures
        day == day_of(at),
{
    let quotient: i64 = at / MILLIS_PER_DAY;
    let remainder: i64 = at % MILLIS_PER_DAY;
    if remainder < 0 {
        quotient - 1
    } else {
        quotient
    }
}

/// Computes [`hour_of`].
pub fn hour_number(at: i64) -> (hour: u8)
    ensures
        hour == hour_of(at),
        hour < 24,
{
    let remainder: i64 = at % MILLIS_PER_DAY;
    let within_day: i64 = if remainder < 0 {
        remainder + MILLIS_PER_DAY
    } else {
        remainder
    };
    (within_day / MILLIS_PER_HOUR) as u8
}

} // verus!
