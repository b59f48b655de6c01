//! Instants, fixed time zones, durations and calendar dates.
//!
//! An instant is a Unix timestamp with nanosecond precision that carries the
//! fixed offset of the zone it is read in. A calendar date is the number of
//! its day, counted from 1970-01-01. Day arithmetic is plain integer
//! arithmetic; the Gregorian calendar (year, month, day of month) is chrono's.

use chrono::Datelike;
use vstd::prelude::*;

verus! {

/// The seconds of a day.
pub const SECONDS_PER_DAY: i64 = 86_400;

/// The milliseconds of a second.
pub const MILLIS_PER_SECOND: i64 = 1_000;

/// The milliseconds of a day.
pub const MILLIS_PER_DAY: i64 = 86_400_000;

/// The nanoseconds of a millisecond.
pub const NANOS_PER_MILLI: u32 = 1_000_000;

/// The nanoseconds of a second.
pub const NANOS_PER_SECOND: u32 = 1_000_000_000;

/// The timestamps that a `DateTime` holds lie within this many seconds of the
/// Unix epoch. Every instant that chrono represents does.
pub const MAX_TIMESTAMP: i64 = 0x800_0000_0000;

/// Quotient of `a` by a positive `b`, rounded towards negative infinity.
pub(crate) fn div_floor(a: i64, b: i64) -> (q: i64)
    requires
        b > 0,
    ensures
        q == a as int / b as int,
{
    if a >= 0 {
        a / b
    } else {
        let t: i64 = (a + 1) / b;
        assert(t as int - 1 == a as int / b as int) by (nonlinear_arith)
            requires
                a < 0,
                b > 0,
                t as int == -((-(a as int + 1)) / (b as int)),
        ;
        t - 1
    }
}

/// Remainder of `a` by a positive `b`, never negative.
pub(crate) fn mod_floor(a: i64, b: i64) -> (r: i64)
    requires
        b > 0,
        i64::MIN + b <= a,
    ensures
        r == a as int % b as int,
        0 <= r < b,
{
    let q: i64 = div_floor(a, b);
    proof {
        let x = a as int;
        let y = b as int;
        assert(x == y * (x / y) + x % y && 0 <= x % y < y) by (nonlinear_arith)
            requires
                y > 0,
        ;
        assert(x - y < (x / y) * y <= x) by (nonlinear_arith)
            requires
                y > 0,
                x == y * (x / y) + x % y,
                0 <= x % y < y,
        ;
    }
    a - q * b
}

/// A time zone with a fixed offset from UTC, east of Greenwich positive,
/// less than one day either way.
#[derive(Clone, Copy, Debug, PartialEq, Eq, Structural)]
pub struct UtcOffset {
    secs: i32,
}

impl View for UtcOffset {
    type V = int;

    /// The offset in seconds.
    closed spec fn view(&self) -> int {
        self.secs as int
    }
}

/// The offsets that a `UtcOffset` can hold.
pub open spec fn valid_offset(secs: int) -> bool {
    -SECONDS_PER_DAY < secs < SECONDS_PER_DAY
}

impl UtcOffset {
    #[verifier::type_invariant]
    pub open spec fn inv(self) -> bool {
        valid_offset(self@)
    }

    /// The zone `secs` seconds east of UTC, if that is less than a day.
    pub fn east(secs: i32) -> (zone: Option<UtcOffset>)
        ensures
            zone.is_some() <==> valid_offset(secs as int),
            zone matches Some(z) ==> z@ == secs,
    {
        if -86_400 < secs && secs < 86_400 {
            Some(UtcOffset { secs })
        } else {
            None
        }
    }

    /// UTC itself.
    pub fn utc() -> (zone: UtcOffset)
        ensures
            zone@ == 0,
    {
        UtcOffset { secs: 0 }
    }

    /// The offset in seconds east of UTC.
    pub fn local_minus_utc(&self) -> (secs: i32)
        ensures
            secs == self@,
            valid_offset(self@),
    {
        proof {
            use_type_invariant(self);
        }
        self.secs
    }
}

/// A calendar date: the number of its day, 1970-01-01 being day 0.
#[derive(Clone, Copy, Debug, PartialEq, Eq, Structural)]
pub struct Date {
    pub day: i32,
}

/// A date of the Gregorian calendar by year, month (from 1) and day of the
/// month (from 1).
#[derive(Clone, Copy, Debug, PartialEq, Eq, Structural)]
pub struct CivilDate {
    pub year: i32,
    pub month: u32,
    pub day: u32,
}

/// What chrono gives as the calendar date of the day `days` after 1970-01-01
/// (before it, where `days` is negative); `None` beyond the years that chrono
/// represents.
pub uninterp spec fn civil_from_days(days: i32) -> Option<CivilDate>;

/// What chrono gives as the day number, counted from 1970-01-01, of a
/// calendar date; `None` where the calendar has no such date or chrono does
/// not represent its year.
pub uninterp spec fn days_from_civil(year: i32, month: u32, day: u32) -> Option<i32>;

/// `chrono::NaiveDate::from_epoch_days`, read back through `Datelike::year`,
/// `month` and `day`. The contract only names the result: it is chrono's
/// calendar date of that day, and nothing is claimed of its value.
#[verifier::external_body]
fn naive_date_of_epoch_days(days: i32) -> (civil: Option<CivilDate>)
    ensures
        civil == civil_from_days(days),
{
    match chrono::NaiveDate::from_epoch_days(days) {
        Some(date) => Some(CivilDate { year: date.year(), month: date.month(), day: date.day() }),
        None => None,
    }
}

/// `chrono::NaiveDate::from_ymd_opt`, read back through
/// `NaiveDate::to_epoch_days`. The contract only names the result: it is
/// chrono's day number of that calendar date, and nothing is claimed of its
/// value.
#[verifier::external_body]
fn naive_date_to_epoch_days(year: i32, month: u32, day: u32) -> (days: Option<i32>)
    ensures
        days == days_from_civil(year, month, day),
{
    match chrono::NaiveDate::from_ymd_opt(year, month, day) {
        Some(date) => Some(date.to_epoch_days()),
        None => None,
    }
}

impl Date {
    /// The date of a calendar day, as far as `days_from_civil` knows it.
    pub open spec fn spec_from_ymd(year: i32, month: u32, day: u32) -> Option<Date> {
        match days_from_civil(year, month, day) {
            Some(days) => Some(Date { day: days }),
            None => None,
        }
    }

    /// The first instant of day `day` in the zone at `offset`.
    pub open spec fn spec_midnight(day: int, offset: int) -> DateTimeView {
        DateTimeView { secs: day * SECONDS_PER_DAY - offset, nanos: 0, offset }
    }

    /// The date `day` days after 1970-01-01.
    pub fn from_epoch_days(day: i32) -> (date: Date)
        ensures
            date.day == day,
    {
        Date { day }
    }

    /// The date's day number.
    pub fn epoch_days(&self) -> (day: i32)
        ensures
            day == self.day,
    {
        self.day
    }

    /// The date with this year, month and day of the month.
    pub fn from_ymd(year: i32, month: u32, day: u32) -> (date: Option<Date>)
        ensures
            date == Date::spec_from_ymd(year, month, day),
    {
        match naive_date_to_epoch_days(year, month, day) {
            Some(days) => Some(Date { day: days }),
            None => None,
        }
    }

    /// Year, month and day of the month of this date.
    pub fn civil(&self) -> (civil: Option<CivilDate>)
        ensures
            civil == civil_from_days(self.day),
    {
        naive_date_of_epoch_days(self.day)
    }

    /// How many days this date lies after `earlier`; negative where it lies
    /// before.
    pub fn days_since(&self, earlier: Date) -> (days: i64)
        ensures
            days == self.day - earlier.day,
    {
        self.day as i64 - earlier.day as i64
    }

    /// Whether this date is the day after `earlier`.
    pub fn follows(&self, earlier: Date) -> (yes: bool)
        ensures
            yes == (self.day == earlier.day + 1),
    {
        self.day as i64 == earlier.day as i64 + 1
    }

    /// The start of this date in `zone`; `None` where that lies further than
    /// `MAX_TIMESTAMP` seconds from the Unix epoch.
    pub fn and_midnight(&self, zone: UtcOffset) -> (start: Option<DateTime>)
        ensures
            start.is_some() <==> Date::spec_midnight(self.day as int, zone@).wf(),
            start matches Some(t) ==> t@ == Date::spec_midnight(self.day as int, zone@),
    {
        let offset: i32 = zone.local_minus_utc();
        let secs: i64 = self.day as i64 * SECONDS_PER_DAY - offset as i64;
        if -MAX_TIMESTAMP <= secs && secs <= MAX_TIMESTAMP {
            Some(DateTime { secs, nanos: 0, zone })
        } else {
            None
        }
    }
}

/// A span of time in whole milliseconds; negative spans point backwards.
#[derive(Clone, Copy, Debug, PartialEq, Eq, Structural)]
pub struct Duration {
    millis: i64,
}

impl View for Duration {
    type V = int;

    /// The span in milliseconds.
    closed spec fn view(&self) -> int {
        self.millis as int
    }
}

impl Duration {
    /// A span of `millis` milliseconds.
    pub fn milliseconds(millis: i64) -> (span: Duration)
        ensures
            span@ == millis,
    {
        Duration { millis }
    }

    /// A span of `days` days of 24 hours.
    pub fn days(days: i32) -> (span: Duration)
        ensures
            span@ == days * MILLIS_PER_DAY,
    {
        Duration { millis: days as i64 * MILLIS_PER_DAY }
    }

    /// The span in milliseconds.
    pub fn num_milliseconds(&self) -> (millis: i64)
        ensures
            millis == self@,
    {
        self.millis
    }
}

/// What a `DateTime` holds: seconds and nanoseconds since the Unix epoch, and
/// the offset of its zone in seconds.
pub struct DateTimeView {
    pub secs: int,
    pub nanos: int,
    pub offset: int,
}

impl DateTimeView {
    /// The values that a `DateTime` can hold.
    pub open spec fn wf(self) -> bool {
        &&& -MAX_TIMESTAMP <= self.secs <= MAX_TIMESTAMP
        &&& 0 <= self.nanos < NANOS_PER_SECOND
        &&& valid_offset(self.offset)
    }

    /// Whole milliseconds since the Unix epoch.
    pub open spec fn millis(self) -> int {
        self.secs * MILLIS_PER_SECOND + self.nanos / (NANOS_PER_MILLI as int)
    }

    /// The day number of the calendar date that this instant falls on in its
    /// zone.
    pub open spec fn local_day(self) -> int {
        (self.secs + self.offset) / (SECONDS_PER_DAY as int)
    }

    /// The same instant without what is finer than a millisecond.
    pub open spec fn truncated_to_millis(self) -> DateTimeView {
        DateTimeView {
            secs: self.secs,
            nanos: (self.nanos / (NANOS_PER_MILLI as int)) * NANOS_PER_MILLI,
            offset: self.offset,
        }
    }

    /// The same instant read in another zone.
    pub open spec fn in_zone(self, offset: int) -> DateTimeView {
        DateTimeView { secs: self.secs, nanos: self.nanos, offset }
    }

    /// The instant `millis` milliseconds after the Unix epoch, read at
    /// `offset`.
    pub open spec fn from_millis(millis: int, offset: int) -> DateTimeView {
        DateTimeView {
            secs: millis / (MILLIS_PER_SECOND as int),
            nanos: (millis % (MILLIS_PER_SECOND as int)) * NANOS_PER_MILLI,
            offset,
        }
    }
}

/// An instant, with nanosecond precision, read in a zone of fixed offset.
#[derive(Clone, Copy, Debug, PartialEq, Eq, Structural)]
pub struct DateTime {
    secs: i64,
    nanos: u32,
    zone: UtcOffset,
}

impl View for DateTime {
    type V = DateTimeView;

    closed spec fn view(&self) -> DateTimeView {
        DateTimeView { secs: self.secs as int, nanos: self.nanos as int, offset: self.zone@ }
    }
}

impl DateTime {
    #[verifier::type_invariant]
    pub open spec fn inv(self) -> bool {
        self@.wf()
    }

    /// The instant `secs` seconds and `nanos` nanoseconds after the Unix
    /// epoch, read in `zone`; `None` where the nanoseconds make a second or
    /// more, or the seconds lie further than `MAX_TIMESTAMP` from the epoch.
    pub fn from_timestamp(secs: i64, nanos: u32, zone: UtcOffset) -> (t: Option<DateTime>)
        ensures
            t.is_some() <==> (-MAX_TIMESTAMP <= secs <= MAX_TIMESTAMP && nanos < NANOS_PER_SECOND),
            t matches Some(t) ==> t@ == (DateTimeView {
                secs: secs as int,
                nanos: nanos as int,
                offset: zone@,
            }),
    {
        proof {
            use_type_invariant(zone);
        }
        if -MAX_TIMESTAMP <= secs && secs <= MAX_TIMESTAMP && nanos < NANOS_PER_SECOND {
            Some(DateTime { secs, nanos, zone })
        } else {
            None
        }
    }

    /// The instant `millis` milliseconds after the Unix epoch, read in
    /// `zone`; `None` where that lies further than `MAX_TIMESTAMP` seconds
    /// from the epoch.
    pub fn from_timestamp_millis(millis: i64, zone: UtcOffset) -> (t: Option<DateTime>)
        ensures
            t.is_some() <==> DateTimeView::from_millis(millis as int, zone@).wf(),
            t matches Some(t) ==> t@ == DateTimeView::from_millis(millis as int, zone@),
    {
        proof {
            use_type_invariant(zone);
        }
        if -MAX_TIMESTAMP * MILLIS_PER_SECOND <= millis && millis < (MAX_TIMESTAMP + 1)
            * MILLIS_PER_SECOND {
            Some(DateTime::from_millis_in_range(millis, zone))
        } else {
            None
        }
    }

    /// The instant `millis` milliseconds after the Unix epoch, read in
    /// `zone`.
    pub(crate) fn from_millis_in_range(millis: i64, zone: UtcOffset) -> (t: DateTime)
        requires
            -MAX_TIMESTAMP * MILLIS_PER_SECOND <= millis < (MAX_TIMESTAMP + 1) * MILLIS_PER_SECOND,
        ensures
            t@ == DateTimeView::from_millis(millis as int, zone@),
            t@.wf(),
    {
        proof {
            use_type_invariant(zone);
        }
        let secs: i64 = div_floor(millis, MILLIS_PER_SECOND);
        let sub: i64 = mod_floor(millis, MILLIS_PER_SECOND);
        DateTime { secs, nanos: sub as u32 * NANOS_PER_MILLI, zone }
    }

    /// Whole seconds since the Unix epoch.
    pub fn timestamp(&self) -> (secs: i64)
        ensures
            secs == self@.secs,
            self@.wf(),
    {
        proof {
            use_type_invariant(self);
        }
        self.secs
    }

    /// Nanoseconds since the last whole second.
    pub fn timestamp_subsec_nanos(&self) -> (nanos: u32)
        ensures
            nanos == self@.nanos,
            self@.wf(),
    {
        proof {
            use_type_invariant(self);
        }
        self.nanos
    }

    /// Whole milliseconds since the Unix epoch.
    pub fn timestamp_millis(&self) -> (millis: i64)
        ensures
            millis == self@.millis(),
            self@.wf(),
    {
        proof {
            use_type_invariant(self);
        }
        self.secs * MILLIS_PER_SECOND + (self.nanos / NANOS_PER_MILLI) as i64
    }

    /// The zone this instant is read in.
    pub fn offset(&self) -> (zone: UtcOffset)
        ensures
            zone@ == self@.offset,
    {
        self.zone
    }

    /// The same instant read in `zone`.
    pub fn with_timezone(&self, zone: UtcOffset) -> (t: DateTime)
        ensures
            t@ == self@.in_zone(zone@),
    {
        proof {
            use_type_invariant(self);
            use_type_invariant(zone);
        }
        DateTime { secs: self.secs, nanos: self.nanos, zone }
    }

    /// The calendar date this instant falls on in its zone.
    pub fn date(&self) -> (date: Date)
        ensures
            date.day == self@.local_day(),
    {
        proof {
            use_type_invariant(self);
            use_type_invariant(self.zone);
        }
        let local: i64 = self.secs + self.zone.local_minus_utc() as i64;
        let day: i64 = div_floor(local, SECONDS_PER_DAY);
        Date { day: day as i32 }
    }
}

} // verus!
