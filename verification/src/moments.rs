//! Points in time: when auctions and lots close, read from the listings and written for
//! the screen.
use vstd::prelude::*;

use chrono::{DateTime, FixedOffset, NaiveDateTime, TimeZone, Utc};
use chrono_tz::America::Regina;

use crate::text::{
    concat, is_tight, law_splitting_takes_parts_one_by_one, law_trimming_takes_off_space,
    split_at_mark, split_mark, texts, trim, trimmed,
};

verus! {

/// The first second of the calendar's first year, counted from the Unix epoch.
pub const FIRST_SECOND: i64 = -8334601228800;

/// The last second of the calendar's last year, counted from the Unix epoch.
pub const LAST_SECOND: i64 = 8210266876799;

/// How far Saskatchewan's clocks are behind UTC, in seconds.
pub const SASKATCHEWAN_WEST: i32 = 21600;

/// A count of seconds since the Unix epoch, and of nanoseconds, that names a point in time
/// of the calendar. A leap second is told by a billion nanoseconds or more, and stands at
/// the end of a minute only.
pub open spec fn in_calendar(seconds: int, nanos: int) -> bool {
    &&& FIRST_SECOND <= seconds <= LAST_SECOND
    &&& 0 <= nanos < 2_000_000_000
    &&& nanos >= 1_000_000_000 ==> seconds % 60 == 59
}

/// A point in time of the calendar.
#[derive(Debug, Clone, Copy, PartialEq, Eq, Structural)]
pub struct Moment {
    seconds: i64,
    nanos: u32,
}

impl View for Moment {
    type V = (int, int);

    /// The seconds since the Unix epoch, and the nanoseconds after them.
    closed spec fn view(&self) -> (int, int) {
        (self.seconds as int, self.nanos as int)
    }
}

/// One point in time comes after another.
pub open spec fn later(a: (int, int), b: (int, int)) -> bool {
    a.0 > b.0 || (a.0 == b.0 && a.1 > b.1)
}

/// The point in time of an optional moment.
pub open spec fn optional_moment(m: Option<Moment>) -> Option<(int, int)> {
    match m {
        Some(m) => Some(m@),
        None => None,
    }
}

impl Moment {
    #[verifier::type_invariant]
    spec fn valid(self) -> bool {
        in_calendar(self.seconds as int, self.nanos as int)
    }

    /// The point in time so many seconds, and nanoseconds, after the Unix epoch.
    pub fn new(seconds: i64, nanos: u32) -> (r: Option<Moment>)
        ensures
            optional_moment(r) == if in_calendar(seconds as int, nanos as int) {
                Some((seconds as int, nanos as int))
            } else {
                None
            },
    {
        if seconds < FIRST_SECOND || seconds > LAST_SECOND || nanos >= 2_000_000_000 {
            return None;
        }
        if nanos >= 1_000_000_000 {
            let shifted: i64 = seconds + 8334601228800;
            assert(shifted % 60 == (seconds as int) % 60);
            if shifted % 60 != 59 {
                return None;
            }
        }
        Some(Moment { seconds, nanos })
    }

    /// The seconds since the Unix epoch.
    pub fn timestamp(&self) -> (r: i64)
        ensures
            r == self@.0,
    {
        self.seconds
    }

    /// Whether this point in time comes after another.
    pub fn is_after(&self, other: &Moment) -> (r: bool)
        ensures
            r == later(self@, other@),
    {
        self.seconds > other.seconds || (self.seconds == other.seconds && self.nanos > other.nanos)
    }
}

/// The point in time that a text in the format of RFC 3339 names to `chrono`.
pub uninterp spec fn rfc3339_moment(text: Seq<char>) -> Option<(int, int)>;

/// The clock reading, counted as if in UTC, that `chrono` reads from a text by a format.
pub uninterp spec fn clock_reading(text: Seq<char>, format: Seq<char>) -> Option<(int, int)>;

/// How `chrono` writes a point in time, on the clocks of Regina, by a format.
pub uninterp spec fn regina_text(seconds: int, nanos: int, format: Seq<char>) -> Seq<char>;

/// A pair of counts as whole numbers.
pub open spec fn counts(r: Option<(i64, u32)>) -> Option<(int, int)> {
    match r {
        Some((seconds, nanos)) => Some((seconds as int, nanos as int)),
        None => None,
    }
}

/// `chrono::DateTime::parse_from_rfc3339` names the point in time of a text from the text
/// alone; what it gives lies in the calendar.
#[verifier::external_body]
fn read_rfc3339(text: &str) -> (r: Option<(i64, u32)>)
    ensures
        counts(r) == rfc3339_moment(text@),
        r matches Some((seconds, nanos)) ==> in_calendar(seconds as int, nanos as int),
{
    let parsed = DateTime::parse_from_rfc3339(text).ok()?;
    Some((parsed.timestamp(), parsed.timestamp_subsec_nanos()))
}

/// `chrono::NaiveDateTime::parse_from_str` reads a date and a time of day from a text by a
/// format, from these two alone; what it gives lies in the calendar.
#[verifier::external_body]
fn read_clock(text: &str, format: &str) -> (r: Option<(i64, u32)>)
    ensures
        counts(r) == clock_reading(text@, format@),
        r matches Some((seconds, nanos)) ==> in_calendar(seconds as int, nanos as int),
{
    let parsed = NaiveDateTime::parse_from_str(text, format).ok()?.and_utc();
    Some((parsed.timestamp(), parsed.timestamp_subsec_nanos()))
}

/// `chrono::FixedOffset::from_local_datetime` names the point in time at which a clock so
/// many seconds behind UTC shows a reading: as many seconds later than a clock on UTC shows
/// it, where that lies in the calendar.
#[verifier::external_body]
fn west_of_utc(seconds: i64, nanos: u32, west: i32) -> (r: Option<(i64, u32)>)
    requires
        in_calendar(seconds as int, nanos as int),
        -86400 < west < 86400,
    ensures
        counts(r) == if FIRST_SECOND <= seconds + west <= LAST_SECOND {
            Some((seconds + west, nanos as int))
        } else {
            None
        },
{
    let local = DateTime::from_timestamp(seconds, nanos)?.naive_utc();
    let found = FixedOffset::west_opt(west)?.from_local_datetime(&local).single()?;
    Some((found.timestamp(), found.timestamp_subsec_nanos()))
}

/// `chrono::Utc::now` gives the present point in time, which lies in the calendar. Which one
/// it is depends on the machine's clock.
#[verifier::external_body]
fn read_utc_clock() -> (r: (i64, u32))
    ensures
        in_calendar(r.0 as int, r.1 as int),
{
    let now = Utc::now();
    (now.timestamp(), now.timestamp_subsec_nanos())
}

/// `chrono::DateTime::format`, on the time zone `chrono_tz::America::Regina`, writes a point
/// in time by a format; what it writes depends on these alone. It is asked for the two
/// formats of the screen only, both of which it can write.
#[verifier::external_body]
fn write_regina(seconds: i64, nanos: u32, format: &str) -> (r: String)
    requires
        in_calendar(seconds as int, nanos as int),
        format@ == "%b %d, %I:%M %P"@ || format@ == "%Y-%m-%d %I:%M:%S %P CST"@,
    ensures
        r@ == regina_text(seconds as int, nanos as int, format@),
{
    let moment = DateTime::from_timestamp(seconds, nanos).expect("a point in time of the calendar");
    moment.with_timezone(&Regina).format(format).to_string()
}

/// The present point in time.
pub fn utc_now() -> (r: Moment)
    ensures
        in_calendar(r@.0, r@.1),
{
    let (seconds, nanos) = read_utc_clock();
    Moment { seconds, nanos }
}

/// When a lot closes, by the text of its listing. A text that names no point in time leaves
/// it open.
pub fn parse_lot_close(value: &str) -> (r: Option<Moment>)
    ensures
        optional_moment(r) == rfc3339_moment(value@),
{
    match read_rfc3339(value) {
        Some((seconds, nanos)) => Some(Moment { seconds, nanos }),
        None => None,
    }
}

/// The closing time in the text of an auction: the second and the third of its three parts.
pub open spec fn close_clock_text(value: Seq<char>) -> Option<Seq<char>> {
    let parts = split_at_mark(value, '/');
    if parts.len() == 3 {
        Some(trimmed(parts[1]) + seq![' '] + trimmed(parts[2]))
    } else {
        None
    }
}

/// The point in time at which Saskatchewan's clocks show a reading.
pub open spec fn saskatchewan_moment(reading: (int, int)) -> Option<(int, int)> {
    if FIRST_SECOND <= reading.0 + SASKATCHEWAN_WEST <= LAST_SECOND {
        Some((reading.0 + SASKATCHEWAN_WEST, reading.1))
    } else {
        None
    }
}

/// When an auction closes, by the text of its listing and the clock reading found in it.
pub open spec fn close_of_reading(
    text: Option<Seq<char>>,
    reading: Option<(int, int)>,
) -> Result<Option<(int, int)>, ()> {
    match text {
        None => Ok(None),
        Some(_) => match reading {
            Some(reading) => Ok(saskatchewan_moment(reading)),
            None => Err(()),
        },
    }
}

/// When an auction closes, by the text of its listing.
pub open spec fn event_close(value: Seq<char>) -> Result<Option<(int, int)>, ()> {
    match close_clock_text(value) {
        None => Ok(None),
        Some(text) => close_of_reading(
            Some(text),
            clock_reading(text, "%b %e, %Y %I:%M %p"@),
        ),
    }
}

/// The outcome of reading a closing time, as points in time.
pub open spec fn close_outcome(r: Result<Option<Moment>, ()>) -> Result<Option<(int, int)>, ()> {
    match r {
        Ok(m) => Ok(optional_moment(m)),
        Err(()) => Err(()),
    }
}

/// The closing time in the text of an auction.
pub fn event_clock_text(value: &str) -> (r: Option<String>)
    ensures
        crate::text::optional_text(r) == close_clock_text(value@),
{
    let parts = split_mark(value, '/');
    assert(texts(parts@).len() == parts@.len());
    if parts.len() != 3 {
        return None;
    }
    assert(texts(parts@)[1] == parts@[1]@);
    assert(texts(parts@)[2] == parts@[2]@);
    let date = trim(parts[1].as_str());
    let time = trim(parts[2].as_str());
    let mut out: String = date;
    out.push(' ');
    out.append(time.as_str());
    assert(out@ =~= trimmed(parts@[1]@) + seq![' '] + trimmed(parts@[2]@));
    Some(out)
}

/// The point in time at which Saskatchewan's clocks show a reading.
pub fn moment_in_saskatchewan(reading: &Moment) -> (r: Option<Moment>)
    ensures
        optional_moment(r) == saskatchewan_moment(reading@),
{
    proof {
        use_type_invariant(reading);
    }
    match west_of_utc(reading.seconds, reading.nanos, SASKATCHEWAN_WEST) {
        Some((seconds, nanos)) => {
            assert((reading.seconds + 21600) % 60 == (reading.seconds as int) % 60);
            Some(Moment { seconds, nanos })
        },
        None => None,
    }
}

/// When an auction closes, by the clock reading found in its text: there is none to find
/// where the text has not three parts, and a text that has them must give one.
pub fn close_from_reading(has_clock_text: bool, reading: Option<Moment>) -> (r: Result<
    Option<Moment>,
    (),
>)
    ensures
        close_outcome(r) == close_of_reading(
            if has_clock_text {
                Some(seq![])
            } else {
                None
            },
            optional_moment(reading),
        ),
{
    if !has_clock_text {
        return Ok(None);
    }
    match reading {
        Some(reading) => Ok(moment_in_saskatchewan(&reading)),
        None => Err(()),
    }
}

/// When an auction closes, by the text of its listing. A text of three parts must name a
/// date and a time of day.
pub fn parse_event_close(value: &str) -> (r: Result<Option<Moment>, ()>)
    ensures
        close_outcome(r) == event_close(value@),
{
    match event_clock_text(value) {
        None => close_from_reading(false, None),
        Some(text) => {
            let reading = match read_clock(text.as_str(), "%b %e, %Y %I:%M %p") {
                Some((seconds, nanos)) => Some(Moment { seconds, nanos }),
                None => None,
            };
            close_from_reading(true, reading)
        },
    }
}

/// A closing time for the screen.
pub open spec fn close_time_text(value: Option<(int, int)>) -> Seq<char> {
    match value {
        Some((seconds, nanos)) => regina_text(seconds, nanos, "%b %d, %I:%M %P"@),
        None => "Unknown"@,
    }
}

/// Writes a closing time for the screen.
pub fn format_close_time(value: &Option<Moment>) -> (r: String)
    ensures
        r@ == close_time_text(optional_moment(*value)),
{
    match value {
        Some(moment) => {
            proof {
                use_type_invariant(moment);
            }
            write_regina(moment.seconds, moment.nanos, "%b %d, %I:%M %P")
        },
        None => "Unknown".to_owned(),
    }
}

/// Writes when the listings were loaded.
pub fn format_loaded_at(value: &Moment) -> (r: String)
    ensures
        r@ == "loaded "@ + regina_text(value@.0, value@.1, "%Y-%m-%d %I:%M:%S %P CST"@),
{
    proof {
        use_type_invariant(value);
    }
    let when = write_regina(value.seconds, value.nanos, "%Y-%m-%d %I:%M:%S %P CST");
    concat("loaded ", when.as_str())
}

/// Of two different points in time exactly one comes after the other, and a point in time
/// after a second that is after a third is after the third.
pub proof fn law_later_is_an_order(a: (int, int), b: (int, int), c: (int, int))
    ensures
        a != b ==> (later(a, b) <==> !later(b, a)),
        !later(a, a),
        later(a, b) && later(b, c) ==> later(a, c),
{
}

/// The text of an auction's closing time has three parts: a word, the date and the time of day.
/// It closes when Saskatchewan's clocks, which are six hours behind UTC all year, show these.
/// A text with another number of parts names no closing time.
pub proof fn law_auction_closes_by_saskatchewan_clocks(
    word: Seq<char>,
    date: Seq<char>,
    time: Seq<char>,
)
    requires
        !word.contains('/'),
        !date.contains('/'),
        !time.contains('/'),
        is_tight(date),
        is_tight(time),
    ensures
        ({
            let text = word + seq!['/'] + (seq![' '] + date + seq![' ']) + seq!['/'] + (seq![' ']
                + time);
            match clock_reading(date + seq![' '] + time, "%b %e, %Y %I:%M %p"@) {
                None => event_close(text) is Err,
                Some((seconds, nanos)) => FIRST_SECOND <= seconds + 6 * 60 * 60 <= LAST_SECOND
                    ==> event_close(text) == Ok::<_, ()>(Some((seconds + 6 * 60 * 60, nanos))),
            }
        }),
        event_close(word) == Ok::<Option<(int, int)>, ()>(None),
        event_close(word + seq!['/'] + date) == Ok::<Option<(int, int)>, ()>(None),
{
    let gap = seq![' '];
    let second = gap + date + gap;
    let third = gap + time;
    let text = word + seq!['/'] + second + seq!['/'] + third;
    assert(!second.contains('/')) by {
        assert forall|i: int| 0 <= i < second.len() implies second[i] != '/' by {
            if 0 < i <= date.len() {
                assert(date.contains(date[i - 1]));
            }
        }
    }
    assert(!third.contains('/')) by {
        assert forall|i: int| 0 <= i < third.len() implies third[i] != '/' by {
            if 0 < i {
                assert(time.contains(time[i - 1]));
            }
        }
    }
    law_splitting_takes_parts_one_by_one(word, '/', second + seq!['/'] + third);
    law_splitting_takes_parts_one_by_one(second, '/', third);
    law_splitting_takes_parts_one_by_one(third, '/', seq![]);
    assert(text =~= word + seq!['/'] + (second + seq!['/'] + third));
    assert(split_at_mark(text, '/') =~= seq![word, second, third]);
    law_trimming_takes_off_space(gap, date, gap);
    law_trimming_takes_off_space(gap, time, seq![]);
    assert(third =~= gap + time + seq![]);
    law_splitting_takes_parts_one_by_one(word, '/', date);
    law_splitting_takes_parts_one_by_one(date, '/', seq![]);
    assert(split_at_mark(word, '/').len() == 1);
    assert(split_at_mark(word + seq!['/'] + date, '/') =~= seq![word, date]);
}

/// A closing time is written with the month, the day and the time of day on Regina's clocks; one
/// that is not known is said to be so.
pub proof fn law_closing_times_are_written_for_regina(seconds: int, nanos: int)
    ensures
        close_time_text(Some((seconds, nanos))) == regina_text(seconds, nanos, "%b %d, %I:%M %P"@),
        close_time_text(None) == "Unknown"@,
{
}

} // verus!
