//! Points in time as plain numbers, and the calendar questions that are put
//! to `chrono`.

use vstd::prelude::*;

verus! {

/// A point in time on the UTC time line: whole seconds since the start of
/// 1970, and the nanoseconds that follow them.
#[derive(Clone, Copy, Debug, PartialEq, Eq, Structural)]
pub struct Timestamp {
    pub secs: i64,
    pub nanos: u32,
}

/// What `chrono` writes for a point in time under one of the patterns `%Y`,
/// `%m` and `%d`, or `None` where it has no date for that point.
pub uninterp spec fn formatted_utc(secs: int, nanos: int, pattern: Seq<char>) -> Option<Seq<char>>;

/// Whole seconds from `earlier` to `later` as `chrono` counts them, or `None`
/// where it cannot represent one of the two points.
pub uninterp spec fn elapsed_seconds(
    later_secs: int,
    later_nanos: int,
    earlier_secs: int,
    earlier_nanos: int,
) -> Option<i64>;

/// Whether `pattern` is one of the three that this crate formats dates with.
pub open spec fn is_date_pattern(pattern: Seq<char>) -> bool {
    pattern == "%Y"@ || pattern == "%m"@ || pattern == "%d"@
}

/// `DateTime::from_timestamp` followed by `DateTime::format` of `chrono`.
/// The text depends on the point in time and the pattern alone; nothing is
/// claimed about what it holds. The patterns are limited to those that
/// `chrono` can always format.
#[verifier::external_body]
pub(crate) fn format_utc(t: &Timestamp, pattern: &str) -> (r: Option<String>)
    requires
        is_date_pattern(pattern@),
    ensures
        match r {
            Some(s) => formatted_utc(t.secs as int, t.nanos as int, pattern@) == Some(s@),
            None => formatted_utc(t.secs as int, t.nanos as int, pattern@) is None,
        },
{
    chrono::DateTime::from_timestamp(t.secs, t.nanos).map(|d| d.format(pattern).to_string())
}

/// `DateTime::signed_duration_since` followed by `TimeDelta::num_seconds` of
/// `chrono`, on two points built with `DateTime::from_timestamp`.
#[verifier::external_body]
pub(crate) fn seconds_between(later: &Timestamp, earlier: &Timestamp) -> (r: Option<i64>)
    ensures
        r == elapsed_seconds(
            later.secs as int,
            later.nanos as int,
            earlier.secs as int,
            earlier.nanos as int,
        ),
{
    let a = chrono::DateTime::from_timestamp(later.secs, later.nanos)?;
    let b = chrono::DateTime::from_timestamp(earlier.secs, earlier.nanos)?;
    Some(a.signed_duration_since(b).num_seconds())
}

impl Timestamp {
    /// Milliseconds since the start of 1970.
    pub open spec fn millis(self) -> int {
        self.secs * 1000 + self.nanos / 1_000_000
    }

    /// The point in time that lies `millis` milliseconds after the start of
    /// 1970.
    pub open spec fn of_millis(millis: int) -> Timestamp {
        Timestamp { secs: (millis / 1000) as i64, nanos: ((millis % 1000) * 1_000_000) as u32 }
    }

    /// Milliseconds since the start of 1970, where they fit in 64 bits.
    pub fn timestamp_millis(&self) -> (r: Option<i64>)
        ensures
            r == if i64::MIN <= self.millis() <= i64::MAX {
                Some(self.millis() as i64)
            } else {
                None
            },
    {
        let ms: i128 = self.secs as i128 * 1000 + (self.nanos / 1_000_000) as i128;
        if ms < i64::MIN as i128 || ms > i64::MAX as i128 {
            None
        } else {
            Some(ms as i64)
        }
    }

    /// The point in time that lies `millis` milliseconds after the start of
    /// 1970.
    pub fn from_millis(millis: i64) -> (t: Timestamp)
        ensures
            t == Timestamp::of_millis(millis as int),
            t.millis() == millis,
    {
        let q: i64 = millis / 1000;
        let r: i64 = millis % 1000;
        if r < 0 {
            Timestamp { secs: q - 1, nanos: ((r + 1000) * 1_000_000) as u32 }
        } else {
            Timestamp { secs: q, nanos: (r * 1_000_000) as u32 }
        }
    }
}

} // verus!
