//! The codec between instants and event identifiers.
//!
//! An event identifier ("snowflake") holds, above its 22 low bits, the
//! milliseconds that passed between a fixed epoch, the first instant of 2015
//! in UTC, and the event. The low bits tell events of one millisecond apart
//! and carry no time. Encoding an instant leaves them zero, and decoding
//! drops them, so the codec keeps an instant to the millisecond.

use crate::time::{Date, DateTime, DateTimeView, Duration, UtcOffset};
use vstd::prelude::*;

verus! {

/// The instant, in milliseconds after the Unix epoch, that identifiers count
/// from.
pub const EPOCH_MILLIS: i64 = 1_420_070_400_000;

/// How many low bits of an identifier carry no time.
pub const TIMESTAMP_SHIFT: u32 = 22;

/// How many identifiers one millisecond spans: two to the power of
/// `TIMESTAMP_SHIFT`.
pub const TICKS_PER_MILLI: i64 = 0x40_0000;

/// Whether `x` is a value of `i64`.
pub open spec fn fits_i64(x: int) -> bool {
    i64::MIN <= x <= i64::MAX
}

/// The identifier of the instant `millis` milliseconds after the Unix epoch.
pub open spec fn spec_encode(millis: int) -> int {
    (millis - EPOCH_MILLIS) * TICKS_PER_MILLI
}

/// The milliseconds after the Unix epoch that the identifier `id` holds.
pub open spec fn spec_decode(id: int) -> int {
    id / (TICKS_PER_MILLI as int) + EPOCH_MILLIS
}

/// The identifier that lies `millis` milliseconds of wall-clock time after
/// `id`.
pub open spec fn spec_add_duration(id: int, millis: int) -> int {
    id + millis * TICKS_PER_MILLI
}

/// The day number of the calendar date that the identifier `id` falls on in
/// the zone at `offset`.
pub open spec fn spec_date_of(id: int, offset: int) -> int {
    DateTimeView::from_millis(spec_decode(id), offset).local_day()
}

/// Values that have a place in the space of event identifiers.
pub trait IntoSnowflakes: Sized {
    /// Whether the value lies in the range that identifiers cover.
    spec fn in_snowflake_range(&self) -> bool;

    /// The value's place among the identifiers.
    spec fn snowflakes(&self) -> int;

    /// The value's place among the identifiers.
    fn into_snowflakes(self) -> (id: i64)
        requires
            self.in_snowflake_range(),
        ensures
            id == self.snowflakes(),
    ;
}

/// `x` moved up by `TIMESTAMP_SHIFT` bits.
fn shift_up(x: i64) -> (id: i64)
    requires
        fits_i64(x * TICKS_PER_MILLI),
    ensures
        id == x * TICKS_PER_MILLI,
{
    assert(x << 22 == x * 0x40_0000) by (bit_vector)
        requires
            -0x200_0000_0000 <= x < 0x200_0000_0000,
    ;
    x << TIMESTAMP_SHIFT
}

/// `id` moved down by `TIMESTAMP_SHIFT` bits.
fn shift_down(id: i64) -> (x: i64)
    ensures
        x == id as int / (TICKS_PER_MILLI as int),
        -0x200_0000_0000 <= x < 0x200_0000_0000,
{
    assert(id >> 22 == id / 0x40_0000) by (bit_vector);
    id >> TIMESTAMP_SHIFT
}

impl IntoSnowflakes for DateTime {
    /// An instant is in range where its identifier is a value of `i64`: from
    /// about 70 years before the epoch of the identifiers to about 70 years
    /// after it.
    open spec fn in_snowflake_range(&self) -> bool {
        fits_i64(spec_encode(self@.millis()))
    }

    open spec fn snowflakes(&self) -> int {
        spec_encode(self@.millis())
    }

    /// The first identifier of the instant's millisecond.
    fn into_snowflakes(self) -> (id: i64) {
        let millis: i64 = self.timestamp_millis();
        shift_up(millis - EPOCH_MILLIS)
    }
}

impl IntoSnowflakes for Duration {
    open spec fn in_snowflake_range(&self) -> bool {
        fits_i64(self@ * TICKS_PER_MILLI)
    }

    open spec fn snowflakes(&self) -> int {
        self@ * TICKS_PER_MILLI
    }

    /// The distance between two identifiers that lie this span apart.
    fn into_snowflakes(self) -> (id: i64) {
        shift_up(self.num_milliseconds())
    }
}

/// The identifier of `instant`, if the instant is in the range that
/// identifiers cover.
pub fn encode(instant: DateTime) -> (id: Option<i64>)
    ensures
        id.is_some() <==> instant.in_snowflake_range(),
        id matches Some(id) ==> id == instant.snowflakes(),
{
    let millis: i64 = instant.timestamp_millis();
    let since: i64 = millis - EPOCH_MILLIS;
    if -0x200_0000_0000 <= since && since < 0x200_0000_0000 {
        Some(instant.into_snowflakes())
    } else {
        None
    }
}

/// The instant that the identifier `snowflakes` holds, read in the zone `tz`.
pub fn from_snowflakes(tz: &UtcOffset, snowflakes: i64) -> (instant: DateTime)
    ensures
        instant@ == DateTimeView::from_millis(spec_decode(snowflakes as int), tz@),
        instant@.wf(),
{
    let millis: i64 = shift_down(snowflakes) + EPOCH_MILLIS;
    DateTime::from_millis_in_range(millis, *tz)
}

/// The identifier that lies the wall-clock span `span` after `event_id`:
/// the span's milliseconds, moved up by `TIMESTAMP_SHIFT` bits, are added.
/// `None` where the span or the sum leaves the range of identifiers.
pub fn add_duration(event_id: i64, span: Duration) -> (id: Option<i64>)
    ensures
        id.is_some() <==> span.in_snowflake_range() && fits_i64(
            spec_add_duration(event_id as int, span@),
        ),
        id matches Some(id) ==> id == spec_add_duration(event_id as int, span@),
{
    let millis: i64 = span.num_milliseconds();
    if -0x200_0000_0000 <= millis && millis < 0x200_0000_0000 {
        let step: i64 = span.into_snowflakes();
        event_id.checked_add(step)
    } else {
        None
    }
}

/// The calendar date that the event `event_id` falls on in `zone`.
pub fn date_of(event_id: i64, zone: &UtcOffset) -> (date: Date)
    ensures
        date.day == spec_date_of(event_id as int, zone@),
{
    from_snowflakes(zone, event_id).date()
}

/// Decoding undoes encoding: an instant in the range of the identifiers comes
/// back from its identifier as it was, less what is finer than a millisecond,
/// whatever zone it is read in; and it comes back on the same calendar date.
pub proof fn lemma_decode_encode(instant: DateTimeView, offset: int)
    requires
        instant.wf(),
    ensures
        spec_decode(spec_encode(instant.millis())) == instant.millis(),
        DateTimeView::from_millis(spec_decode(spec_encode(instant.millis())), offset)
            == instant.truncated_to_millis().in_zone(offset),
        spec_date_of(spec_encode(instant.millis()), instant.offset) == instant.local_day(),
{
}

/// Encoding undoes decoding up to the low bits: the identifier of the instant
/// that `id` holds is the first identifier of that millisecond.
pub proof fn lemma_encode_decode(id: int)
    ensures
        spec_encode(spec_decode(id)) == id - id % (TICKS_PER_MILLI as int),
        spec_encode(spec_decode(id)) <= id < spec_encode(spec_decode(id)) + TICKS_PER_MILLI,
{
}

/// Later instants have later identifiers, and later identifiers hold instants
/// that are not earlier.
pub proof fn lemma_codec_monotonic(a: int, b: int)
    requires
        a <= b,
    ensures
        spec_encode(a) <= spec_encode(b),
        spec_decode(a) <= spec_decode(b),
        a < b ==> spec_encode(a) < spec_encode(b),
{
}

} // verus!
