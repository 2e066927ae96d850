//! Moments in time, and the calendar that `chrono` keeps.
//!
//! A moment is the number of seconds since the Unix epoch and the nanoseconds within
//! the second. As in `chrono`, a leap second is the last second of its minute with
//! a thousand million nanoseconds more.

use vstd::prelude::*;
use crate::text::is_digit;

verus! {

/// The last second that `chrono` can represent, in the year 262142.
pub const LAST_SECOND: i64 = 8_210_266_876_799;

/// The first second that `chrono` can represent, in the year -262143.
pub const FIRST_SECOND: i64 = -8_334_601_228_800;

/// The first second of the year 0.
pub const YEAR_0: i64 = -62_167_219_200;

/// The last second of the year 9999.
pub const YEAR_9999: i64 = 253_402_300_799;

/// A moment in time.
#[derive(Debug, Clone, Copy, PartialEq, Eq, Structural)]
pub struct Moment {
    /// The seconds since the Unix epoch.
    pub secs: i64,
    /// The nanoseconds within the second.
    pub nanos: u32,
}

impl Moment {
    /// `chrono` can represent the moment.
    pub open spec fn valid(self) -> bool {
        &&& FIRST_SECOND <= self.secs <= LAST_SECOND
        &&& self.nanos < 1_000_000_000 || (self.nanos < 2_000_000_000 && (self.secs as int) % 60
            == 59)
    }

    /// The moment is in a year of four digits.
    pub open spec fn four_digit_year(self) -> bool {
        YEAR_0 <= self.secs <= YEAR_9999
    }

    /// The moment comes before `other`.
    pub open spec fn before(self, other: Moment) -> bool {
        self.secs < other.secs || (self.secs == other.secs && self.nanos < other.nanos)
    }

    /// The later of two moments.
    pub open spec fn later(self, other: Moment) -> Moment {
        if self.before(other) {
            other
        } else {
            self
        }
    }

    /// So many seconds later. Any step leaves a leap second.
    pub open spec fn plus(self, seconds: int) -> Moment {
        if seconds == 0 {
            self
        } else {
            Moment {
                secs: (self.secs + seconds) as i64,
                nanos: if self.nanos >= 1_000_000_000 {
                    (self.nanos - 1_000_000_000) as u32
                } else {
                    self.nanos
                },
            }
        }
    }

    /// Whether the moment comes before `other`.
    pub fn is_before(self, other: Moment) -> (r: bool)
        ensures
            r == self.before(other),
    {
        self.secs < other.secs || (self.secs == other.secs && self.nanos < other.nanos)
    }
}

/// The moment as a pair of numbers.
pub open spec fn moment_of(pair: Option<(i64, u32)>) -> Option<Moment> {
    match pair {
        Some((secs, nanos)) => Some(Moment { secs, nanos }),
        None => None,
    }
}

/// What [`parse_rfc3339`] reads out of a text: seconds and nanoseconds.
pub uninterp spec fn rfc3339_moment(text: Seq<char>) -> Option<(i64, u32)>;

/// What [`format_rfc3339`] writes for seconds and nanoseconds.
pub uninterp spec fn rfc3339_text(secs: i64, nanos: u32) -> Seq<char>;

/// What [`format_stamp`] writes for seconds and nanoseconds.
pub uninterp spec fn stamp_text(secs: i64, nanos: u32) -> Seq<char>;

/// Whether [`is_calendar_date`] takes a text for a date.
pub uninterp spec fn calendar_date(text: Seq<char>) -> bool;

/// `DateTime::parse_from_rfc3339`, taken over to UTC: the moment that a text names,
/// or nothing where it does not parse. The result is a function of the text; the
/// year has four digits and the offset is less than a day, so the moment is in the
/// calendar with a day to spare at either end, and a leap second ends its minute.
#[verifier::external_body]
pub(crate) fn parse_rfc3339(text: &str) -> (moment: Option<Moment>)
    ensures
        moment == moment_of(rfc3339_moment(text@)),
        moment matches Some(m) ==> m.valid() && YEAR_0 - 86_400 <= m.secs <= YEAR_9999 + 86_400,
{
    match chrono::DateTime::parse_from_rfc3339(text) {
        Ok(at) => Some(Moment { secs: at.timestamp(), nanos: at.timestamp_subsec_nanos() }),
        Err(_) => None,
    }
}

/// `DateTime::<Utc>::to_rfc3339`: the text of a moment. The text is a function of the
/// moment, and `DateTime::parse_from_rfc3339` reads the moment back where its year
/// has four digits: every digit of the fraction is written.
#[verifier::external_body]
pub(crate) fn format_rfc3339(moment: Moment) -> (text: String)
    requires
        moment.valid(),
    ensures
        text@ == rfc3339_text(moment.secs, moment.nanos),
        moment.four_digit_year() ==> rfc3339_moment(text@) == Some((moment.secs, moment.nanos)),
{
    let at: Option<chrono::DateTime<chrono::Utc>> = chrono::DateTime::from_timestamp(
        moment.secs,
        moment.nanos,
    );
    at.unwrap().to_rfc3339()
}

/// `DateTime::<Utc>::format` with `%Y%m%d%H%M%S`: the text is a function of the
/// moment, fourteen digits where the year has four.
#[verifier::external_body]
pub(crate) fn format_stamp(moment: Moment) -> (text: String)
    requires
        moment.valid(),
    ensures
        text@ == stamp_text(moment.secs, moment.nanos),
        moment.four_digit_year() ==> text@.len() == 14 && forall|i: int|
            0 <= i < 14 ==> is_digit(#[trigger] text@[i]),
{
    let at: Option<chrono::DateTime<chrono::Utc>> = chrono::DateTime::from_timestamp(
        moment.secs,
        moment.nanos,
    );
    at.unwrap().format("%Y%m%d%H%M%S").to_string()
}

/// `DateTime<Utc> + TimeDelta::seconds`: so many seconds later. A positive step
/// counts from the second that a leap second belongs to and drops its surplus.
#[verifier::external_body]
pub(crate) fn add_seconds(moment: Moment, seconds: i64) -> (later: Moment)
    requires
        moment.valid(),
        0 <= seconds,
        moment.secs + seconds <= LAST_SECOND,
    ensures
        later == moment.plus(seconds as int),
{
    let at: Option<chrono::DateTime<chrono::Utc>> = chrono::DateTime::from_timestamp(
        moment.secs,
        moment.nanos,
    );
    let later = at.unwrap() + chrono::TimeDelta::seconds(seconds);
    Moment { secs: later.timestamp(), nanos: later.timestamp_subsec_nanos() }
}

/// `Utc::now`: some moment after the Unix epoch. Which one depends on the clock.
#[verifier::external_body]
pub(crate) fn utc_now() -> (moment: Moment)
    ensures
        moment.valid(),
        0 <= moment.secs,
        moment.nanos < 1_000_000_000,
{
    let at = chrono::Utc::now();
    Moment { secs: at.timestamp(), nanos: at.timestamp_subsec_nanos() }
}

/// `NaiveDate::parse_from_str` with `%Y-%m-%d`: whether a text is a date of the
/// calendar. The answer is a function of the text.
#[verifier::external_body]
pub(crate) fn is_calendar_date(text: &str) -> (r: bool)
    ensures
        r == calendar_date(text@),
{
    chrono::NaiveDate::parse_from_str(text, "%Y-%m-%d").is_ok()
}

/// A later moment stays in the calendar.
pub proof fn lemma_plus_valid(moment: Moment, seconds: int)
    requires
        moment.valid(),
        0 <= seconds,
        moment.secs + seconds <= LAST_SECOND,
    ensures
        moment.plus(seconds).valid(),
{
}

} // verus!
