use vstd::prelude::*;

verus! {

/// The length of a year in the build-date fields: 366 days.
pub const SECONDS_IN_YEAR: u64 = 31622400;

pub const SECONDS_IN_DAY: u64 = 86400;

/// Seconds from the Unix epoch to the start of 1990.
pub const SECONDS_TO_1990: u64 = 631152000;

/// Seconds since the start of 1990, of a time given as seconds since the Unix
/// epoch.
pub fn duration_since_1990(unix_seconds: u64) -> (r: u64)
    requires
        unix_seconds >= SECONDS_TO_1990,
    ensures
        r == unix_seconds - SECONDS_TO_1990,
{
    unix_seconds - SECONDS_TO_1990
}

/// The build day written into headers: whole days into the current build year.
pub fn days_since_jan_1(unix_seconds: u64) -> (r: u32)
    requires
        unix_seconds >= SECONDS_TO_1990,
    ensures
        r == (unix_seconds - SECONDS_TO_1990) % (SECONDS_IN_YEAR as int) / (SECONDS_IN_DAY as int),
{
    (duration_since_1990(unix_seconds) % SECONDS_IN_YEAR / SECONDS_IN_DAY) as u32
}

/// The build year written into headers: whole build years since 1990.
pub fn years_since_1990(unix_seconds: u64) -> (r: u32)
    requires
        unix_seconds >= SECONDS_TO_1990,
    ensures
        r == ((unix_seconds - SECONDS_TO_1990) / (SECONDS_IN_YEAR as int)) as u32,
{
    (duration_since_1990(unix_seconds) / SECONDS_IN_YEAR) as u32
}

} // verus!
