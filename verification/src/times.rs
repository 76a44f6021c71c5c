use vstd::prelude::*;

use crate::errors::ExtractError;

verus! {

/// A date and time as stored in a zip entry's last-modified field, split
/// into plain calendar fields. The fields are stored as read from the
/// archive and may name an invalid calendar date; validity is decided by
/// [`dos_datetime_valid`] when the value is converted to an absolute time.
#[derive(Clone, Copy, Debug, PartialEq, Eq, Structural)]
pub struct DosDateTime {
    pub year: u16,
    pub month: u8,
    pub day: u8,
    pub hour: u8,
    pub minute: u8,
    pub second: u8,
}

/// The proleptic Gregorian leap-year rule.
pub open spec fn is_leap_year(y: int) -> bool {
    (y % 4 == 0 && y % 100 != 0) || y % 400 == 0
}

/// Days in a month of the proleptic Gregorian calendar.
pub open spec fn days_in_month(y: int, m: int) -> int {
    if m == 2 {
        if is_leap_year(y) {
            29
        } else {
            28
        }
    } else if m == 4 || m == 6 || m == 9 || m == 11 {
        30
    } else {
        31
    }
}

/// Whether the stored fields name a calendar date and time that can be
/// turned into an absolute instant: a month of 1 to 12, a day that exists
/// in that month, an hour below 24, a minute and a second below 60, and a
/// year no later than 9999 (the largest year the calendar arithmetic
/// accepts).
pub open spec fn dos_datetime_valid(dt: DosDateTime) -> bool {
    &&& 1 <= dt.month <= 12
    &&& dt.year <= 9999
    &&& 1 <= dt.day <= days_in_month(dt.year as int, dt.month as int)
    &&& dt.hour < 24
    &&& dt.minute < 60
    &&& dt.second < 60
}

/// The number of days from the Unix epoch (1970-01-01) to the given day
/// of the proleptic Gregorian calendar, negative for earlier days. The
/// year is shifted so it changes on March 1, which lets one 400-year era
/// carry all leap-day corrections: within an era a year contributes 365
/// days plus one for each fourth year, minus one for each hundredth,
/// and `(153 * m + 2) / 5` is the days from March 1 to month `m` counted
/// from March.
pub open spec fn days_from_civil(year: int, month: int, day: int) -> int {
    let shifted_year = if month <= 2 {
        year - 1
    } else {
        year
    };
    let era = shifted_year / 400;
    let year_of_era = shifted_year - era * 400;
    let month_from_march = (month + 9) % 12;
    let day_of_year = (153 * month_from_march + 2) / 5 + day - 1;
    let day_of_era = year_of_era * 365 + year_of_era / 4 - year_of_era / 100 + day_of_year;
    era * 146097 + day_of_era - 719468
}

/// The number of seconds between the Unix epoch and the given UTC calendar
/// date and time.
pub open spec fn civil_unix_seconds(
    year: int,
    month: int,
    day: int,
    hour: int,
    minute: int,
    second: int,
) -> int {
    days_from_civil(year, month, day) * 86400 + hour * 3600 + minute * 60 + second
}

/// Relies on the `time` crate: `Month::try_from` accepts exactly 1 to 12,
/// `Date::from_calendar_date` accepts exactly the days that exist in the
/// given month of the proleptic Gregorian calendar for years up to 9999,
/// `Time::from_hms` accepts exactly hours below 24 and minutes and seconds
/// below 60, and `unix_timestamp` of the combined value taken as UTC is
/// the proleptic Gregorian day count relative to 1970-01-01 times 86400
/// plus the time of day, which is what `civil_unix_seconds` computes.
#[verifier::external_body]
fn civil_to_unix_seconds(dt: &DosDateTime) -> (r: Option<i64>)
    ensures
        r is Some <==> dos_datetime_valid(*dt),
        r matches Some(s) ==> s == civil_unix_seconds(
            dt.year as int,
            dt.month as int,
            dt.day as int,
            dt.hour as int,
            dt.minute as int,
            dt.second as int,
        ),
{
    let month = time::Month::try_from(dt.month).ok()?;
    let date = time::Date::from_calendar_date(dt.year as i32, month, dt.day).ok()?;
    let tod = time::Time::from_hms(dt.hour, dt.minute, dt.second).ok()?;
    Some(time::PrimitiveDateTime::new(date, tod).assume_utc().unix_timestamp())
}

/// Reference points of the calendar conversion, pinned so the stated
/// formula can be held against the runtime conversion on the same
/// instants: the Unix epoch itself, the first instant of the DOS
/// calendar, and a modern new year.
pub proof fn lemma_civil_unix_seconds_reference_points()
    ensures
        civil_unix_seconds(1970, 1, 1, 0, 0, 0) == 0,
        civil_unix_seconds(1980, 1, 1, 0, 0, 0) == 315532800,
        civil_unix_seconds(2018, 1, 1, 0, 0, 0) == 1514764800,
{
}

/// The optional (accessed, modified, created) triple for one entry, each
/// field in seconds since the Unix epoch. An absent field means "do not
/// touch that attribute".
#[derive(Clone, Copy, Debug, PartialEq, Eq)]
pub struct FileTimes {
    pub accessed: Option<i64>,
    pub modified: Option<i64>,
    pub created: Option<i64>,
}

impl FileTimes {
    /// Whether any of the three timestamps is present.
    pub open spec fn spec_has_time(&self) -> bool {
        self.accessed is Some || self.modified is Some || self.created is Some
    }

    /// True when at least one of the three timestamps is present.
    #[verifier::when_used_as_spec(spec_has_time)]
    pub fn has_time(&self) -> (r: bool)
        ensures
            r == self.spec_has_time(),
    {
        self.accessed.is_some() || self.modified.is_some() || self.created.is_some()
    }
}

/// What resolving an entry's stored last-modified value yields: with no
/// stored value, a triple with every field absent; with a valid stored
/// value, all three fields set to the same converted instant; with an
/// invalid stored value, `TimeConversionError`.
pub open spec fn times_spec(last_modified: Option<DosDateTime>) -> Result<
    FileTimes,
    ExtractError,
> {
    match last_modified {
        Option::None => Ok(FileTimes { accessed: None, modified: None, created: None }),
        Option::Some(dt) => if dos_datetime_valid(dt) {
            Ok(
                FileTimes {
                    accessed: Some(
                        civil_unix_seconds(
                            dt.year as int,
                            dt.month as int,
                            dt.day as int,
                            dt.hour as int,
                            dt.minute as int,
                            dt.second as int,
                        ) as i64,
                    ),
                    modified: Some(
                        civil_unix_seconds(
                            dt.year as int,
                            dt.month as int,
                            dt.day as int,
                            dt.hour as int,
                            dt.minute as int,
                            dt.second as int,
                        ) as i64,
                    ),
                    created: Some(
                        civil_unix_seconds(
                            dt.year as int,
                            dt.month as int,
                            dt.day as int,
                            dt.hour as int,
                            dt.minute as int,
                            dt.second as int,
                        ) as i64,
                    ),
                },
            )
        } else {
            Err(ExtractError::TimeConversionError)
        },
    }
}

/// Derive the (accessed, modified, created) triple from an entry's stored
/// last-modified value, the only timestamp the archive format natively
/// carries. A stored value sets all three fields to the same instant; no
/// stored value leaves all three absent.
pub fn get_zip_entry_file_times(last_modified: Option<DosDateTime>) -> (r: Result<
    FileTimes,
    ExtractError,
>)
    ensures
        r == times_spec(last_modified),
        r matches Ok(t) ==> t.accessed == t.modified && t.modified == t.created,
        r matches Ok(t) ==> (t.spec_has_time() <==> last_modified is Some),
{
    match last_modified {
        Option::None => Ok(FileTimes { accessed: None, modified: None, created: None }),
        Option::Some(dt) => match civil_to_unix_seconds(&dt) {
            Option::None => Err(ExtractError::TimeConversionError),
            Option::Some(s) => Ok(
                FileTimes { accessed: Some(s), modified: Some(s), created: Some(s) },
            ),
        },
    }
}

} // verus!
