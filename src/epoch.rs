//! The day-count epoch: whole days since the reference instant
//! 2025-05-14T00:00:00Z, and the conversions to and from Unix seconds.
use chrono::Datelike;
use vstd::prelude::*;

verus! {

/// The reference instant, in Unix seconds (2025-05-14T00:00:00Z).
pub const REFERENCE_SECS: i64 = 1747180800;

pub const SECS_PER_DAY: i64 = 86400;

pub const SECS_PER_HOUR: i64 = 3600;

/// Unix seconds at the start of epoch day `e`, counted from `reference`.
pub open spec fn unix_of_day_from(reference: int, e: int) -> int {
    reference + e * (SECS_PER_DAY as int)
}

/// Whole days from `reference` to `secs`, floored; 0 for any instant before it.
pub open spec fn day_of_unix_from(reference: int, secs: int) -> int {
    if secs >= reference {
        (secs - reference) / (SECS_PER_DAY as int)
    } else {
        0
    }
}

/// Unix seconds at the start of epoch day `e`.
pub open spec fn unix_of_day(e: int) -> int {
    unix_of_day_from(REFERENCE_SECS as int, e)
}

/// Whole days from the reference instant to `secs`, floored; 0 for any
/// instant before the reference.
pub open spec fn day_of_unix(secs: int) -> int {
    day_of_unix_from(REFERENCE_SECS as int, secs)
}

/// The UTC hour of day (0 to 23) of an instant.
pub open spec fn hour_of_unix(secs: int) -> int {
    (secs % (SECS_PER_DAY as int)) / (SECS_PER_HOUR as int)
}

/// The proleptic Gregorian year, in UTC, of the instant `secs` Unix seconds.
pub uninterp spec fn calendar_year(secs: int) -> int;

/// A bound on Unix seconds well inside the calendar's range (about 253,000
/// years either side of 1970; the calendar reaches years -262143 to 262142).
pub const CALENDAR_SAFE_SECS: i64 = 8_000_000_000_000;

/// The instant lies where the calendar surely represents it.
pub open spec fn calendar_represents(secs: int) -> bool {
    -(CALENDAR_SAFE_SECS as int) <= secs <= CALENDAR_SAFE_SECS as int
}

/// The largest day whose start fits in an `i64` of Unix seconds.
pub open spec fn day_fits(e: int) -> bool {
    unix_of_day(e) <= i64::MAX
}

/// The epoch clock: day numbers counted from a reference instant.
#[derive(Debug, Clone, Copy, PartialEq, Eq, Structural)]
pub struct EpochClock {
    /// The reference instant, in Unix seconds.
    pub reference: i64,
}

impl EpochClock {
    pub fn new(reference: i64) -> (r: EpochClock)
        ensures
            r.reference == reference,
    {
        EpochClock { reference }
    }

    /// The clock of this library's data: days since 2025-05-14T00:00:00Z.
    pub fn standard() -> (r: EpochClock)
        ensures
            r.reference == REFERENCE_SECS,
    {
        EpochClock { reference: REFERENCE_SECS }
    }

    /// Unix seconds at the start of epoch day `e`.
    pub fn epoch_to_unix(&self, e: u64) -> (r: i128)
        ensures
            r == unix_of_day_from(self.reference as int, e as int),
    {
        assert((e as int) * 86400 <= 0xffff_ffff_ffff_ffff * 86400) by (nonlinear_arith)
            requires
                e <= 0xffff_ffff_ffff_ffffu64,
        ;
        self.reference as i128 + (e as i128) * (SECS_PER_DAY as i128)
    }

    /// The epoch day that holds the instant `u`, clamped to 0 before the reference.
    pub fn unix_to_epoch(&self, u: i64) -> (r: u64)
        ensures
            r == day_of_unix_from(self.reference as int, u as int),
    {
        if u >= self.reference {
            let diff: i128 = u as i128 - self.reference as i128;
            (diff / (SECS_PER_DAY as i128)) as u64
        } else {
            0
        }
    }
}

/// Unix seconds at the start of epoch day `e`.
pub fn epoch_to_unix(e: u64) -> (r: i128)
    ensures
        r == unix_of_day(e as int),
{
    EpochClock::standard().epoch_to_unix(e)
}

/// The epoch day that holds the instant `u`, clamped to 0 before the reference.
pub fn unix_to_epoch(u: i64) -> (r: u64)
    ensures
        r == day_of_unix(u as int),
{
    EpochClock::standard().unix_to_epoch(u)
}

/// The UTC hour of day of the instant `u`.
pub fn hour_of_day(u: i64) -> (r: usize)
    ensures
        r == hour_of_unix(u as int),
        r < 24,
{
    let m: i64 = u % SECS_PER_DAY;
    let m: i64 = if m < 0 { m + SECS_PER_DAY } else { m };
    assert(m == (u as int) % (SECS_PER_DAY as int));
    (m / SECS_PER_HOUR) as usize
}

/// Relies on chrono's `DateTime::from_timestamp` and `Datelike::year`:
/// `from_timestamp` gives `None` only for an instant out of its range (years
/// -262143 to 262142); the year is a function of the instant alone, and an
/// instant at or after 1970-01-01 lies in 1970 or later.
#[verifier::external_body]
fn chrono_year(secs: i64) -> (r: Option<i32>)
    ensures
        calendar_represents(secs as int) ==> r is Some,
        r matches Some(y) ==> y as int == calendar_year(secs as int),
        r matches Some(y) ==> (secs >= 0 ==> y >= 1970),
{
    let d = chrono::DateTime::from_timestamp(secs, 0)?;
    Some(d.year())
}

/// The calendar year of the instant `u`, or `None` where the calendar
/// cannot represent it.
pub fn year_of(u: i64) -> (r: Option<i32>)
    ensures
        calendar_represents(u as int) ==> r is Some,
        r matches Some(y) ==> y as int == calendar_year(u as int),
        r matches Some(y) ==> (u >= 0 ==> y >= 1970),
{
    chrono_year(u)
}

/// The calendar year in which epoch day `e` begins.
pub fn year_of_day(e: u64) -> (r: Option<i32>)
    ensures
        r matches Some(y) ==> day_fits(e as int) && y as int == calendar_year(unix_of_day(e as int)) && y >= 1970,
        !day_fits(e as int) ==> r is None,
        calendar_represents(unix_of_day(e as int)) ==> r is Some,
{
    let secs = epoch_to_unix(e);
    if secs <= i64::MAX as i128 {
        year_of(secs as i64)
    } else {
        None
    }
}

/// Relies on chrono's `Utc::now` and `DateTime::timestamp`: the current time
/// in whole Unix seconds (any value; it depends on the clock).
#[verifier::external_body]
fn clock_now() -> (r: i64) {
    chrono::Utc::now().timestamp()
}

/// The current instant in whole Unix seconds (whatever the clock reads).
pub fn now_secs() -> (r: i64)
    ensures
        i64::MIN <= r <= i64::MAX,
{
    clock_now()
}

/// The epoch day of the current instant.
pub fn now_louis_epoch() -> (r: u64)
    ensures
        exists|t: i64| r == day_of_unix(t as int),
{
    let t = now_secs();
    unix_to_epoch(t)
}

/// Every epoch day survives the trip to Unix seconds and back, whatever the
/// reference instant.
pub proof fn lemma_epoch_round_trip(reference: int, e: nat)
    ensures
        day_of_unix_from(reference, unix_of_day_from(reference, e as int)) == e,
{
    assert((e * 86400) / 86400 == e) by (nonlinear_arith);
}

} // verus!
