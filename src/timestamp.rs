use crate::quantity::floor_div;
use chrono::{DateTime, FixedOffset, NaiveDateTime, Offset, TimeZone};
use std::fmt::Write;
use vstd::prelude::*;

verus! {

/// Milliseconds in a day.
pub const DAY_MILLIS: i64 = 86400000;

/// Largest distance from the epoch, in milliseconds, that a timestamp may have.
pub const MAX_MILLIS: i64 = 0x4000_0000_0000_0000;

/// Largest distance from UTC, in seconds, that a time zone offset may have.
pub const MAX_OFFSET_SECS: i32 = 86400;

/// Whether the calendar library can represent the instant `millis` after the epoch.
pub uninterp spec fn instant_in_range(millis: i64) -> bool;

/// The UTC offset, in seconds, of the time zone named `zone` at instant `millis`.
pub uninterp spec fn zone_offset(millis: i64, zone: Seq<char>) -> Option<i32>;

/// Instant `millis` shown in the offset `offset` after the strftime pattern `pattern`.
pub uninterp spec fn formatted(millis: i64, offset: i32, pattern: Seq<char>) -> Option<Seq<char>>;

/// The instant and offset of the local date and time `text`, read after the strftime pattern
/// `pattern`, in the time zone named `zone`.
pub uninterp spec fn parsed_local(text: Seq<char>, pattern: Seq<char>, zone: Seq<char>) -> Option<
    (i64, i32),
>;

/// Relies on chrono::DateTime::from_timestamp_millis: whether it accepts `millis`.
#[verifier::external_body]
fn accepts_millis(millis: i64) -> (r: bool)
    ensures
        r == instant_in_range(millis),
{
    DateTime::from_timestamp_millis(millis).is_some()
}

/// Relies on chrono_tz's zone database, through chrono's TimeZone::offset_from_utc_datetime:
/// the offset of zone `zone` at instant `millis`; none for an unknown zone or instant.
#[verifier::external_body]
fn offset_in_zone(millis: i64, zone: &str) -> (r: Option<i32>)
    ensures
        r == zone_offset(millis, zone@),
{
    let tz: chrono_tz::Tz = zone.parse().ok()?;
    let utc = DateTime::from_timestamp_millis(millis)?;
    Some(tz.offset_from_utc_datetime(&utc.naive_utc()).fix().local_minus_utc())
}

/// Relies on chrono's DateTime::format: instant `millis` in offset `offset` written after
/// `pattern`; none when the pattern or the offset is refused.
#[verifier::external_body]
fn format_instant(millis: i64, offset: i32, pattern: &str) -> (r: Option<String>)
    ensures
        r is Some <==> formatted(millis, offset, pattern@) is Some,
        r matches Some(s) ==> formatted(millis, offset, pattern@) == Some(s@),
{
    let off = FixedOffset::east_opt(offset)?;
    let dt = DateTime::from_timestamp_millis(millis)?.with_timezone(&off);
    let mut out = String::new();
    write!(out, "{}", dt.format(pattern)).ok()?;
    Some(out)
}

/// Relies on chrono's NaiveDateTime::parse_from_str and chrono_tz's zone database: the
/// local date and time `text` read after `pattern` in zone `zone`, as instant and offset;
/// none when the text, the zone or the local time is refused or ambiguous.
#[verifier::external_body]
fn parse_in_zone(text: &str, pattern: &str, zone: &str) -> (r: Option<(i64, i32)>)
    ensures
        r == parsed_local(text@, pattern@, zone@),
{
    let tz: chrono_tz::Tz = zone.parse().ok()?;
    let naive = NaiveDateTime::parse_from_str(text, pattern).ok()?;
    let local = tz.from_local_datetime(&naive).single()?;
    Some((local.timestamp_millis(), local.offset().fix().local_minus_utc()))
}

/// The text that `parse_date` reads: the date followed by the local midnight.
pub open spec fn midnight_text(input: Seq<char>) -> Seq<char> {
    input + "T00:00:00"@
}

/// The pattern that `parse_date` reads with: the date pattern followed by the time of day.
pub open spec fn midnight_pattern(pattern: Seq<char>) -> Seq<char> {
    pattern + "T%H:%M:%S"@
}

/// An instant together with the UTC offset it is shown in.
#[derive(Debug, Clone, Copy, PartialEq, Eq, Structural)]
pub struct Timestamp {
    millis: i64,
    offset_secs: i32,
}

/// The first instant of the local day holding instant `millis` shown at offset `offset`.
pub open spec fn day_start(millis: i64, offset: i32) -> int {
    let local = millis + offset * 1000;
    millis - (local - (local / (DAY_MILLIS as int)) * DAY_MILLIS)
}

/// The pair is a representable instant and offset.
pub open spec fn in_bounds(millis: int, offset: int) -> bool {
    -MAX_MILLIS <= millis <= MAX_MILLIS && -MAX_OFFSET_SECS < offset < MAX_OFFSET_SECS
}

impl View for Timestamp {
    type V = (i64, i32);

    closed spec fn view(&self) -> (i64, i32) {
        (self.millis, self.offset_secs)
    }
}

impl Timestamp {
    pub open spec fn wf(&self) -> bool {
        in_bounds(self@.0 as int, self@.1 as int)
    }

    fn checked(millis: i64, offset_secs: i32) -> (r: Option<Timestamp>)
        ensures
            in_bounds(millis as int, offset_secs as int) <==> r is Some,
            r matches Some(t) ==> t@ == (millis, offset_secs) && t.wf(),
    {
        if -MAX_MILLIS <= millis && millis <= MAX_MILLIS && -MAX_OFFSET_SECS < offset_secs
            && offset_secs < MAX_OFFSET_SECS {
            Some(Timestamp { millis, offset_secs })
        } else {
            None
        }
    }

    /// The instant `v` milliseconds after the epoch, in UTC.
    pub fn from_unix_millis(v: i64) -> (r: Option<Timestamp>)
        ensures
            r is Some <==> instant_in_range(v) && in_bounds(v as int, 0),
            r matches Some(t) ==> t@ == (v, 0i32) && t.wf(),
    {
        if !accepts_millis(v) {
            return None;
        }
        Timestamp::checked(v, 0)
    }

    /// The local midnight of the date `input`, read after the strftime `pattern`, in the time
    /// zone named `zone`.
    pub fn parse_date(input: &str, pattern: &str, zone: &str) -> (r: Option<Timestamp>)
        ensures
            r is Some <==> (parsed_local(midnight_text(input@), midnight_pattern(pattern@), zone@) matches Some(p)
                && in_bounds(p.0 as int, p.1 as int)),
            r matches Some(t) ==> Some(t@) == parsed_local(
                midnight_text(input@),
                midnight_pattern(pattern@),
                zone@,
            ) && t.wf(),
    {
        let mut text = String::from_str(input);
        text.append("T00:00:00");
        let mut fmt = String::from_str(pattern);
        fmt.append("T%H:%M:%S");
        match parse_in_zone(text.as_str(), fmt.as_str(), zone) {
            Some((m, o)) => Timestamp::checked(m, o),
            None => None,
        }
    }

    pub fn unix_millis(&self) -> (r: i64)
        ensures
            r == self@.0,
    {
        self.millis
    }

    /// The instant written after the strftime `pattern` in its own offset; none when the
    /// pattern is refused.
    pub fn format(&self, pattern: &str) -> (r: Option<String>)
        ensures
            r is Some <==> formatted(self@.0, self@.1, pattern@) is Some,
            r matches Some(s) ==> formatted(self@.0, self@.1, pattern@) == Some(s@),
    {
        format_instant(self.millis, self.offset_secs, pattern)
    }

    /// The same instant shown in the time zone named `zone`.
    pub fn with_timezone(&self, zone: &str) -> (r: Option<Timestamp>)
        ensures
            r is Some <==> (zone_offset(self@.0, zone@) matches Some(o) && in_bounds(
                self@.0 as int,
                o as int,
            )),
            r matches Some(t) ==> t@.0 == self@.0 && Some(t@.1) == zone_offset(self@.0, zone@),
    {
        match offset_in_zone(self.millis, zone) {
            Some(o) => Timestamp::checked(self.millis, o),
            None => None,
        }
    }

    /// The first instant of the local day of this instant, in the same offset.
    pub fn start_of_day(&self) -> (r: Timestamp)
        requires
            self.wf(),
        ensures
            r@.0 == day_start(self@.0, self@.1),
            r@.1 == self@.1,
    {
        let local: i128 = self.millis as i128 + (self.offset_secs as i128) * 1000;
        let q = floor_div(local, DAY_MILLIS as i128);
        proof {
            vstd::arithmetic::div_mod::lemma_fundamental_div_mod(local as int, DAY_MILLIS as int);
            vstd::arithmetic::div_mod::lemma_mod_bound(local as int, DAY_MILLIS as int);
            assert(local - q * DAY_MILLIS == (local as int) % (DAY_MILLIS as int));
        }
        let rem = local - q * (DAY_MILLIS as i128);
        let m = (self.millis as i128 - rem) as i64;
        Timestamp { millis: m, offset_secs: self.offset_secs }
    }

    /// The instant `millis` milliseconds earlier, in the same offset.
    pub fn sub(&self, millis: i64) -> (r: Option<Timestamp>)
        ensures
            r is Some <==> in_bounds(self@.0 - millis, self@.1 as int),
            r matches Some(t) ==> t@.0 == self@.0 - millis && t@.1 == self@.1 && t.wf(),
    {
        let m: i128 = self.millis as i128 - millis as i128;
        if m < -(MAX_MILLIS as i128) || m > MAX_MILLIS as i128 {
            return None;
        }
        Timestamp::checked(m as i64, self.offset_secs)
    }
}

} // verus!
