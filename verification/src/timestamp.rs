//! Instants of universal time.

use chrono::{DateTime, Utc};
use vstd::prelude::*;

use crate::text::sorts_before;

verus! {

/// The first second that an instant can fall in.
pub const FIRST_SECOND: i64 = -8334601228800;

/// The last second that an instant can fall in.
pub const LAST_SECOND: i64 = 8210266876799;

/// The first second of the year 0.
pub const FIRST_WRITTEN_SECOND: i64 = -62167219200;

/// The last second of the year 9999.
pub const LAST_WRITTEN_SECOND: i64 = 253402300799;

/// Seconds since the start of 1970, and nanoseconds into that second. A leap
/// second counts on in the nanoseconds of the second before it.
#[derive(Clone, Copy, Debug, PartialEq, Eq, Hash, PartialOrd, Ord, Structural)]
pub struct Timestamp {
    seconds: i64,
    nanoseconds: u32,
}

/// Whether an instant can have these parts.
pub open spec fn valid_timestamp(seconds: i64, nanoseconds: u32) -> bool {
    &&& FIRST_SECOND <= seconds <= LAST_SECOND
    &&& nanoseconds < 1_000_000_000 || nanoseconds < 2_000_000_000 && seconds % 60 == 59
}

/// What `DateTime::parse_from_rfc3339` reads from a text: seconds and
/// nanoseconds, or the text of its error.
pub uninterp spec fn rfc3339_reading(text: Seq<char>) -> Result<(i64, u32), Seq<char>>;

/// The text that `DateTime::to_rfc3339` gives an instant of universal time.
pub uninterp spec fn rfc3339_text(seconds: i64, nanoseconds: u32) -> Seq<char>;

/// Whether the year of an instant has the four digits that RFC 3339 gives it.
pub open spec fn in_written_years(seconds: i64) -> bool {
    FIRST_WRITTEN_SECOND <= seconds <= LAST_WRITTEN_SECOND
}

/// Whether one instant comes before another.
pub open spec fn earlier(a: (i64, u32), b: (i64, u32)) -> bool {
    a.0 < b.0 || a.0 == b.0 && a.1 < b.1
}

/// Whether a text sorts before that of every later instant, as long as that
/// instant's year has four digits too.
pub open spec fn sorts_by_time(text: Seq<char>, seconds: i64, nanoseconds: u32) -> bool {
    forall|s: i64, n: u32|
        valid_timestamp(s, n) && in_written_years(s) && earlier((seconds, nanoseconds), (s, n))
            ==> sorts_before(text, #[trigger] rfc3339_text(s, n))
}

/// Whether a text is that of an instant whose year has four digits: it reads as
/// the instant, and sorts before the texts of later ones.
pub open spec fn is_stamp_of(text: Seq<char>, instant: (i64, u32)) -> bool {
    &&& valid_timestamp(instant.0, instant.1)
    &&& in_written_years(instant.0)
    &&& text == rfc3339_text(instant.0, instant.1)
    &&& rfc3339_reading(text) == read_as(instant.0, instant.1)
    &&& sorts_by_time(text, instant.0, instant.1)
}

/// Whether a text is that of some instant whose year has four digits.
pub open spec fn is_stamp(text: Seq<char>) -> bool {
    exists|instant: (i64, u32)| is_stamp_of(text, instant)
}

/// A successful reading.
pub open spec fn read_as(seconds: i64, nanoseconds: u32) -> Result<(i64, u32), Seq<char>> {
    Ok((seconds, nanoseconds))
}

/// A reading with its error message as plain text.
pub open spec fn shown(reading: Result<(i64, u32), String>) -> Result<(i64, u32), Seq<char>> {
    match reading {
        Ok(parts) => Ok(parts),
        Err(message) => Err(message@),
    }
}

/// `DateTime::parse_from_rfc3339`, taken to universal time. Which texts it
/// reads, and as what, has a name only.
#[verifier::external_body]
fn parse_from_rfc3339(text: &str) -> (reading: Result<(i64, u32), String>)
    ensures
        shown(reading) == rfc3339_reading(text@),
        reading matches Ok(parts) ==> valid_timestamp(parts.0, parts.1),
{
    match DateTime::parse_from_rfc3339(text) {
        Ok(instant) => {
            let instant = instant.with_timezone(&Utc);
            Ok((instant.timestamp(), instant.timestamp_subsec_nanos()))
        },
        Err(error) => Err(error.to_string()),
    }
}

/// `DateTime::to_rfc3339` of an instant of universal time. What the text is
/// has a name only. Where the year has four digits,
/// `DateTime::parse_from_rfc3339` reads the text as the same instant, and the
/// text sorts before that of every later instant: date and time have as many
/// digits each in all of them, the highest first, only the zeros at the end of
/// the fraction are left out, three at a time, and the sign of the offset that
/// follows sorts before the point and before every digit.
#[verifier::external_body]
fn to_rfc3339(seconds: i64, nanoseconds: u32) -> (text: String)
    requires
        valid_timestamp(seconds, nanoseconds),
    ensures
        text@ == rfc3339_text(seconds, nanoseconds),
        in_written_years(seconds) ==> rfc3339_reading(text@) == read_as(seconds, nanoseconds),
        in_written_years(seconds) ==> sorts_by_time(text@, seconds, nanoseconds),
{
    DateTime::<Utc>::from_timestamp(seconds, nanoseconds).unwrap().to_rfc3339()
}

impl Timestamp {
    #[verifier::type_invariant]
    spec fn well_formed(self) -> bool {
        valid_timestamp(self.seconds, self.nanoseconds)
    }

    /// Seconds since the start of 1970.
    pub closed spec fn spec_seconds(self) -> i64 {
        self.seconds
    }

    /// Nanoseconds into the second.
    pub closed spec fn spec_nanoseconds(self) -> u32 {
        self.nanoseconds
    }

    /// The instant with these parts.
    pub closed spec fn of(parts: (i64, u32)) -> Timestamp {
        Timestamp { seconds: parts.0, nanoseconds: parts.1 }
    }

    /// An instant has the parts that it was made of.
    pub broadcast proof fn parts_of(parts: (i64, u32))
        ensures
            (#[trigger] Timestamp::of(parts)).spec_seconds() == parts.0,
            Timestamp::of(parts).spec_nanoseconds() == parts.1,
    {
    }

    /// Whether the instant comes before another.
    pub open spec fn is_before(self, other: Timestamp) -> bool {
        earlier(
            (self.spec_seconds(), self.spec_nanoseconds()),
            (other.spec_seconds(), other.spec_nanoseconds()),
        )
    }

    /// Seconds since the start of 1970.
    pub fn seconds(&self) -> (seconds: i64)
        ensures
            seconds == self.spec_seconds(),
    {
        self.seconds
    }

    /// Nanoseconds into the second.
    pub fn nanoseconds(&self) -> (nanoseconds: u32)
        ensures
            nanoseconds == self.spec_nanoseconds(),
    {
        self.nanoseconds
    }

    /// The instant's text in the form of RFC 3339. Where its year has four
    /// digits, the text is read as the instant again, and sorts before the texts
    /// of later instants.
    pub fn to_rfc3339(&self) -> (text: String)
        ensures
            text@ == rfc3339_text(self.spec_seconds(), self.spec_nanoseconds()),
            in_written_years(self.spec_seconds()) ==> is_stamp_of(
                text@,
                (self.spec_seconds(), self.spec_nanoseconds()),
            ),
    {
        proof {
            use_type_invariant(self);
        }
        to_rfc3339(self.seconds, self.nanoseconds)
    }

    /// The instant that a text in the form of RFC 3339 stands for, or what is
    /// wrong with the text.
    pub fn parse(text: &str) -> (instant: Result<Timestamp, String>)
        ensures
            match rfc3339_reading(text@) {
                Ok(parts) => instant == Ok::<Timestamp, String>(Timestamp::of(parts)),
                Err(fault) => instant matches Err(message) && message@ == fault,
            },
    {
        match parse_from_rfc3339(text) {
            Ok((seconds, nanoseconds)) => Ok(Timestamp { seconds, nanoseconds }),
            Err(message) => Err(message),
        }
    }
}

} // verus!
