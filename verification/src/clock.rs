//! Points in time, as the records carry them.

use vstd::prelude::*;

verus! {

/// A point in time: whole non-leap seconds since 1970-01-01 00:00:00 UTC and
/// the nanoseconds past that second.
#[derive(Clone, Copy, Debug, PartialEq, Eq, Structural)]
pub struct Timestamp {
    pub seconds: i64,
    pub nanoseconds: u32,
}

impl Timestamp {
    /// An integer that orders timestamps as the pairs (seconds, nanoseconds)
    /// are ordered: first by the seconds, then by the nanoseconds.
    pub open spec fn rank(self) -> int {
        self.seconds * 0x1_0000_0000 + self.nanoseconds
    }

    pub fn new(seconds: i64, nanoseconds: u32) -> (t: Timestamp)
        ensures
            t.seconds == seconds,
            t.nanoseconds == nanoseconds,
    {
        Timestamp { seconds, nanoseconds }
    }

    /// Whether `self` lies strictly before `other`.
    pub fn is_before(&self, other: &Timestamp) -> (r: bool)
        ensures
            r == (self.rank() < other.rank()),
    {
        self.seconds < other.seconds || (self.seconds == other.seconds && self.nanoseconds
            < other.nanoseconds)
    }

    /// The current time: the reading of `std::time::SystemTime::now`, made a
    /// date and time in UTC by chrono's `From<SystemTime>` for
    /// `DateTime<Utc>`, which takes times before 1970 as well as after, and
    /// split by `DateTime::timestamp` and `DateTime::timestamp_subsec_nanos`.
    ///
    /// Nothing is claimed of the reading: the clock may stand still or step
    /// back between two calls.
    #[verifier::external_body]
    pub(crate) fn now() -> (t: Timestamp) {
        let t = chrono::DateTime::<chrono::Utc>::from(std::time::SystemTime::now());
        Timestamp { seconds: t.timestamp(), nanoseconds: t.timestamp_subsec_nanos() }
    }
}

/// The text that chrono writes for the date and time, in UTC and without a
/// zone, that lies `seconds` seconds and `nanoseconds` nanoseconds after
/// 1970-01-01 00:00:00; `None` where chrono has no such date.
pub uninterp spec fn naive_datetime_text(seconds: int, nanoseconds: int) -> Option<Seq<char>>;

/// The text of a timestamp as a date and time.
///
/// `chrono::DateTime::from_timestamp` makes the date and time in UTC, or
/// `None` for seconds out of its range or nanoseconds that it does not
/// accept; `DateTime::naive_utc` drops the zone and `to_string` writes the
/// result as `NaiveDateTime` displays it (year-month-day, a space, the time,
/// and the fraction of the second if there is one). The contract only names
/// that text: it is a function of the two numbers alone.
#[verifier::external_body]
pub(crate) fn datetime_text(t: Timestamp) -> (r: Option<String>)
    ensures
        match r {
            Some(text) => naive_datetime_text(t.seconds as int, t.nanoseconds as int) == Some(
                text@,
            ),
            None => naive_datetime_text(t.seconds as int, t.nanoseconds as int) is None,
        },
{
    match chrono::DateTime::from_timestamp(t.seconds, t.nanoseconds) {
        Some(moment) => Some(moment.naive_utc().to_string()),
        None => None,
    }
}

impl Timestamp {
    /// The text of the timestamp as a date and time, where there is one.
    pub open spec fn text(self) -> Option<Seq<char>> {
        naive_datetime_text(self.seconds as int, self.nanoseconds as int)
    }
}

} // verus!
