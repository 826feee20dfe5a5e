//! Calendar dates and UTC instants in the four-digit-year range that the
//! ISO 8601 and RFC 3339 text forms carry.
use vstd::prelude::*;

verus! {

/// Day number of 0000-01-01, counted from 1970-01-01.
pub const MIN_EPOCH_DAY: i32 = -719528;

/// Day number of 9999-12-31, counted from 1970-01-01.
pub const MAX_EPOCH_DAY: i32 = 2932896;

/// First second of 0000-01-01 UTC, in Unix seconds.
pub const MIN_UNIX_SECS: i64 = -62167219200;

/// Last second of 9999-12-31 UTC, in Unix seconds.
pub const MAX_UNIX_SECS: i64 = 253402300799;

pub const SECS_PER_DAY: i64 = 86400;

pub const NANOS_PER_SEC: u32 = 1000000000;

/// The `YYYY-MM-DD` text of a day given by its number from 1970-01-01.
pub uninterp spec fn iso_date_text(epoch_day: i32) -> Seq<char>;

/// The day that a `%Y-%m-%d` text names, by its number from 1970-01-01.
pub uninterp spec fn iso_date_value(s: Seq<char>) -> Option<i32>;

/// The RFC 3339 text of a UTC instant.
pub uninterp spec fn rfc3339_text(secs: i64, nanos: u32) -> Seq<char>;

/// The UTC instant that an RFC 3339 text names, as Unix seconds and the
/// nanoseconds past them.
pub uninterp spec fn rfc3339_value(s: Seq<char>) -> Option<(i64, u32)>;

/// Relies on chrono's `NaiveDate::from_epoch_days` and the `Display` of
/// `NaiveDate`: a day of years 0 to 9999 prints as `YYYY-MM-DD`, which
/// `NaiveDate::parse_from_str` with `%Y-%m-%d` reads back as the same day.
#[verifier::external_body]
fn format_iso_date(epoch_day: i32) -> (r: String)
    requires
        MIN_EPOCH_DAY <= epoch_day <= MAX_EPOCH_DAY,
    ensures
        r@ == iso_date_text(epoch_day),
        iso_date_value(r@) == Some(epoch_day),
{
    chrono::NaiveDate::from_epoch_days(epoch_day).unwrap().to_string()
}

/// Relies on chrono's `NaiveDate::parse_from_str` with `%Y-%m-%d`, and
/// `NaiveDate::to_epoch_days` for the day number of what it parsed.
#[verifier::external_body]
fn parse_iso_date(s: &str) -> (r: Option<i32>)
    ensures
        r == iso_date_value(s@),
{
    chrono::NaiveDate::parse_from_str(s, "%Y-%m-%d").ok().map(|d| d.to_epoch_days())
}

/// Relies on chrono's `DateTime::<Utc>::from_timestamp` and
/// `DateTime::to_rfc3339`: an instant of years 0 to 9999 prints with a
/// four-digit year and every nonzero subsecond digit, and
/// `DateTime::parse_from_rfc3339` reads that text back as the same instant.
#[verifier::external_body]
fn format_rfc3339(secs: i64, nanos: u32) -> (r: String)
    requires
        MIN_UNIX_SECS <= secs <= MAX_UNIX_SECS,
        nanos < NANOS_PER_SEC,
    ensures
        r@ == rfc3339_text(secs, nanos),
        rfc3339_value(r@) == Some((secs, nanos)),
{
    chrono::DateTime::from_timestamp(secs, nanos).unwrap().to_rfc3339()
}

/// Relies on chrono's `DateTime::parse_from_rfc3339`, read back through
/// `timestamp` and `timestamp_subsec_nanos` as a UTC instant.
#[verifier::external_body]
fn parse_rfc3339(s: &str) -> (r: Option<(i64, u32)>)
    ensures
        r == rfc3339_value(s@),
{
    chrono::DateTime::parse_from_rfc3339(s).ok().map(|t| (t.timestamp(), t.timestamp_subsec_nanos()))
}

/// The day of years 0 to 9999 that a `YYYY-MM-DD` text names.
pub open spec fn day_of(s: Seq<char>) -> Option<CalendarDate> {
    match iso_date_value(s) {
        Some(n) => if MIN_EPOCH_DAY <= n <= MAX_EPOCH_DAY {
            Some(CalendarDate { epoch_day: n })
        } else {
            None
        },
        None => None,
    }
}

/// The instant that an RFC 3339 text names. Every such text is read,
/// whatever year its UTC instant falls in and leap seconds included.
pub open spec fn instant_of(s: Seq<char>) -> Option<Timestamp> {
    match rfc3339_value(s) {
        Some((secs, nanos)) => Some(Timestamp { secs, nanos }),
        None => None,
    }
}

/// A calendar day of years 0 to 9999, by its number from 1970-01-01.
#[derive(Clone, Copy, Debug, PartialEq, Eq, Structural)]
pub struct CalendarDate {
    pub epoch_day: i32,
}

impl CalendarDate {
    pub open spec fn wf(self) -> bool {
        MIN_EPOCH_DAY <= self.epoch_day <= MAX_EPOCH_DAY
    }

    /// Unix seconds of the day's first second.
    pub open spec fn start_secs(self) -> int {
        self.epoch_day * SECS_PER_DAY
    }

    /// Unix seconds of the day's last second, 23:59:59.
    pub open spec fn end_secs(self) -> int {
        self.epoch_day * SECS_PER_DAY + (SECS_PER_DAY - 1)
    }

    pub fn from_epoch_day(epoch_day: i32) -> (r: Option<CalendarDate>)
        ensures
            r == (if MIN_EPOCH_DAY <= epoch_day <= MAX_EPOCH_DAY {
                Some(CalendarDate { epoch_day })
            } else {
                None::<CalendarDate>
            }),
    {
        if MIN_EPOCH_DAY <= epoch_day && epoch_day <= MAX_EPOCH_DAY {
            Some(CalendarDate { epoch_day })
        } else {
            None
        }
    }

    /// Reads a `YYYY-MM-DD` text; `None` where it names no day of years 0 to 9999.
    pub fn parse_iso(s: &str) -> (r: Option<CalendarDate>)
        ensures
            r == day_of(s@),
    {
        match parse_iso_date(s) {
            Some(n) => CalendarDate::from_epoch_day(n),
            None => None,
        }
    }

    /// The `YYYY-MM-DD` text of the day.
    pub fn to_iso(&self) -> (r: String)
        requires
            self.wf(),
        ensures
            r@ == iso_date_text(self.epoch_day),
            day_of(r@) == Some(*self),
    {
        format_iso_date(self.epoch_day)
    }

    /// Unix seconds of 00:00:00 UTC on the day.
    pub fn start_of_day(&self) -> (r: i64)
        requires
            self.wf(),
        ensures
            r == self.start_secs(),
    {
        self.epoch_day as i64 * SECS_PER_DAY
    }

    /// Unix seconds of 23:59:59 UTC on the day.
    pub fn end_of_day(&self) -> (r: i64)
        requires
            self.wf(),
        ensures
            r == self.end_secs(),
    {
        self.epoch_day as i64 * SECS_PER_DAY + (SECS_PER_DAY - 1)
    }
}

/// A UTC instant: Unix seconds and the nanoseconds past them. Any instant
/// read from RFC 3339 text is held; only one of years 0 to 9999 without a
/// leap second (`wf`) prints back to text that reads as the same instant,
/// so only such instants are written.
#[derive(Clone, Copy, Debug, PartialEq, Eq, Structural)]
pub struct Timestamp {
    pub secs: i64,
    pub nanos: u32,
}

impl Timestamp {
    pub open spec fn wf(self) -> bool {
        MIN_UNIX_SECS <= self.secs <= MAX_UNIX_SECS && self.nanos < NANOS_PER_SEC
    }

    pub fn new(secs: i64, nanos: u32) -> (r: Option<Timestamp>)
        ensures
            r == (if MIN_UNIX_SECS <= secs <= MAX_UNIX_SECS && nanos < NANOS_PER_SEC {
                Some(Timestamp { secs, nanos })
            } else {
                None::<Timestamp>
            }),
    {
        if MIN_UNIX_SECS <= secs && secs <= MAX_UNIX_SECS && nanos < NANOS_PER_SEC {
            Some(Timestamp { secs, nanos })
        } else {
            None
        }
    }

    /// Reads an RFC 3339 text; `None` where it is not one.
    pub fn parse_rfc3339(s: &str) -> (r: Option<Timestamp>)
        ensures
            r == instant_of(s@),
    {
        match parse_rfc3339(s) {
            Some((secs, nanos)) => Some(Timestamp { secs, nanos }),
            None => None,
        }
    }

    /// The RFC 3339 text of the instant.
    pub fn to_rfc3339(&self) -> (r: String)
        requires
            self.wf(),
        ensures
            r@ == rfc3339_text(self.secs, self.nanos),
            instant_of(r@) == Some(*self),
    {
        format_rfc3339(self.secs, self.nanos)
    }
}

} // verus!
