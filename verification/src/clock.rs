//! Instants, in microseconds since the Unix epoch, and how they are written down.

use vstd::prelude::*;
#[allow(unused_imports)]
use vstd::string::*;

verus! {

/// Instants that a calendar date can be given for.
pub open spec fn is_dated(t: i64) -> bool {
    -8_200_000_000_000_000_000 <= t <= 8_200_000_000_000_000_000
}

/// What `DateTime::to_rfc3339` gives for an instant in UTC.
pub uninterp spec fn rfc3339(t: i64) -> Seq<char>;

/// `chrono::DateTime::<Utc>::to_rfc3339` of the instant. The calendar arithmetic is
/// named, not restated. The instants let in lie inside the years that chrono can
/// represent, so `from_timestamp_micros` gives a date for each.
#[verifier::external_body]
pub(crate) fn to_rfc3339(t: i64) -> (out: String)
    requires
        is_dated(t),
    ensures
        out@ == rfc3339(t),
{
    chrono::DateTime::<chrono::Utc>::from_timestamp_micros(t).unwrap().to_rfc3339()
}

/// What the format `%Y%m%d%H%M%S%.3f` gives for an instant in UTC.
pub uninterp spec fn compact_stamp(t: i64) -> Seq<char>;

/// `chrono::DateTime::<Utc>::format` with `%Y%m%d%H%M%S%.3f`: date, time and
/// milliseconds without separators. The calendar arithmetic is named, not restated.
#[verifier::external_body]
pub(crate) fn to_compact_stamp(t: i64) -> (out: String)
    requires
        is_dated(t),
    ensures
        out@ == compact_stamp(t),
{
    chrono::DateTime::<chrono::Utc>::from_timestamp_micros(t).unwrap().format("%Y%m%d%H%M%S%.3f").to_string()
}

/// `chrono::Utc::now`, in whole microseconds since the epoch. Nothing is promised of the
/// reading.
#[verifier::external_body]
pub(crate) fn now() -> (t: i64) {
    chrono::Utc::now().timestamp_micros()
}

/// An instant to the nanosecond: the seconds since the epoch and the nanoseconds since then.
#[derive(Debug, Clone, Copy, PartialEq, Eq, Structural)]
pub struct Moment {
    pub secs: i64,
    pub nanos: u32,
}

/// The moments that chrono has a date and a time for: the nanoseconds reach into a leap
/// second only at the end of a minute.
pub open spec fn is_moment(m: Moment) -> bool {
    &&& -8_334_601_228_800 <= m.secs <= 8_210_266_876_799
    &&& m.nanos < 1_000_000_000 || m.nanos < 2_000_000_000 && m.secs % 60 == 59
}

/// What `DateTime::to_rfc3339_opts` gives for a moment in UTC with as many decimals as it
/// needs and a `Z`.
pub uninterp spec fn rfc3339_z(m: Moment) -> Seq<char>;

/// `chrono::DateTime::<Utc>::to_rfc3339_opts` with `SecondsFormat::AutoSi` and a `Z`. The
/// calendar arithmetic is named, not restated. `from_timestamp` gives a date for each of the
/// moments let in.
#[verifier::external_body]
pub(crate) fn to_rfc3339_z(m: Moment) -> (out: String)
    requires
        is_moment(m),
    ensures
        out@ == rfc3339_z(m),
{
    chrono::DateTime::<chrono::Utc>::from_timestamp(m.secs, m.nanos).unwrap().to_rfc3339_opts(
        chrono::SecondsFormat::AutoSi,
        true,
    )
}

/// `chrono::Utc::now`, in seconds and nanoseconds. Nothing is promised of the reading but
/// that chrono has a date and a time for it.
#[verifier::external_body]
pub(crate) fn now_exactly() -> (m: Moment)
    ensures
        is_moment(m),
{
    let t = chrono::Utc::now();
    Moment { secs: t.timestamp(), nanos: t.timestamp_subsec_nanos() }
}

} // verus!
