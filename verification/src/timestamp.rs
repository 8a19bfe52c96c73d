//! Points in time, and their texts in HTTP headers and on the index page.
use vstd::prelude::*;

verus! {

/// The first second that a timestamp can lie in: the start of the year -262143.
pub const FIRST_SECOND: i64 = -8_334_601_228_800;

/// The last second that a timestamp can lie in: the end of the year 262142.
pub const LAST_SECOND: i64 = 8_210_266_876_799;

/// The first second, from 1970 on, that an HTTP date cannot write: the start of
/// the year 10000.
pub const HTTP_DATE_LIMIT: u64 = 253_402_300_800;

/// A point in time in UTC. One inside a leap second is told by the second before
/// it and more than a second's nanoseconds.
#[derive(Debug, Clone, Copy, PartialEq, Eq, Structural)]
pub struct Timestamp {
    seconds: i64,
    nanos: u32,
}

/// A point in time: a second, counted from the start of 1970 without leap
/// seconds, and the nanoseconds behind its start.
#[verifier::ext_equal]
pub struct TimeView {
    pub second: int,
    pub nanos: int,
}

impl View for Timestamp {
    type V = TimeView;

    closed spec fn view(&self) -> TimeView {
        TimeView { second: self.seconds as int, nanos: self.nanos as int }
    }
}

/// The nanoseconds since the start of 1970. A leap second falls together with the
/// second behind it.
pub open spec fn unix_nanos(at: TimeView) -> int {
    at.second * 1_000_000_000 + at.nanos
}

/// The whole second, counted from the start of 1970, that a number of
/// nanoseconds lies in.
pub open spec fn whole_second(at: int) -> int {
    at / 1_000_000_000
}

/// Whether there is such a point in time. Only the last second of a minute can be
/// followed by a leap second.
pub open spec fn is_instant(at: TimeView) -> bool {
    &&& FIRST_SECOND <= at.second <= LAST_SECOND
    &&& 0 <= at.nanos < 2_000_000_000
    &&& at.nanos >= 1_000_000_000 ==> at.second % 60 == 59
}

/// Whether the start of a second is not before a point in time. A leap second is
/// before the second behind it.
pub open spec fn is_reached(at: TimeView, second: int) -> bool {
    at.second < second || at.second == second && at.nanos == 0
}

/// The leap second between two points in time, as far as one of them tells of it:
/// where the one that is earlier in its day lies in a leap second, that second is
/// counted.
pub open spec fn leap_between(now: TimeView, earlier: TimeView) -> int {
    let now_of_day = now.second % 86_400;
    let earlier_of_day = earlier.second % 86_400;
    if now_of_day > earlier_of_day && earlier.nanos >= 1_000_000_000 {
        1
    } else if now_of_day < earlier_of_day && now.nanos >= 1_000_000_000 {
        -1
    } else {
        0
    }
}

/// The nanoseconds from one point in time to another.
pub open spec fn elapsed(now: TimeView, earlier: TimeView) -> int {
    unix_nanos(now) - unix_nanos(earlier) + leap_between(now, earlier) * 1_000_000_000
}

impl Timestamp {
    #[verifier::type_invariant]
    spec fn in_range(self) -> bool {
        is_instant(self@)
    }

    /// The timestamp `nanos` nanoseconds behind the start of second `seconds`.
    pub fn new(seconds: i64, nanos: u32) -> (at: Option<Timestamp>)
        ensures
            at is Some <==> is_instant(TimeView { second: seconds as int, nanos: nanos as int }),
            at is Some ==> at->0@ == (TimeView { second: seconds as int, nanos: nanos as int }),
    {
        if seconds < FIRST_SECOND || seconds > LAST_SECOND || nanos >= 2_000_000_000 {
            return None;
        }
        if nanos >= 1_000_000_000 && (seconds - FIRST_SECOND) as u64 % 60 != 59 {
            return None;
        }
        Some(Timestamp { seconds, nanos })
    }

    /// The second, counted from the start of 1970 without leap seconds.
    pub fn seconds(&self) -> (seconds: i64)
        ensures
            seconds == self@.second,
            is_instant(self@),
    {
        proof {
            use_type_invariant(self);
        }
        self.seconds
    }

    /// The nanoseconds behind the start of the second.
    pub fn nanos(&self) -> (nanos: u32)
        ensures
            nanos == self@.nanos,
            is_instant(self@),
    {
        proof {
            use_type_invariant(self);
        }
        self.nanos
    }

    /// The nanoseconds since the start of 1970.
    pub fn as_nanos(&self) -> (at: i128)
        ensures
            at == unix_nanos(self@),
            is_instant(self@),
    {
        proof {
            use_type_invariant(self);
        }
        self.seconds as i128 * 1_000_000_000 + self.nanos as i128
    }

    /// Whether the timestamp has an HTTP date.
    pub fn has_http_date(&self) -> (yes: bool)
        ensures
            yes == has_http_date(unix_nanos(self@)),
    {
        let at: i128 = self.as_nanos();
        0 <= at && at < 253_402_300_800_000_000_000
    }

    /// Whether the start of a second is not before the timestamp.
    pub fn is_reached(&self, second: u64) -> (yes: bool)
        ensures
            yes == is_reached(self@, second as int),
    {
        let at: i128 = self.seconds as i128;
        at < second as i128 || at == second as i128 && self.nanos == 0
    }

    fn second_of_day(&self) -> (second: u64)
        ensures
            second == self@.second % 86_400,
    {
        proof {
            use_type_invariant(self);
        }
        (self.seconds - FIRST_SECOND) as u64 % 86_400
    }

    /// Whether `self` lies less than `seconds` seconds behind `earlier`.
    pub fn is_within(&self, seconds: i64, earlier: &Timestamp) -> (within: bool)
        ensures
            within == (elapsed(self@, earlier@) < seconds * 1_000_000_000),
    {
        let now: i128 = self.as_nanos();
        let before: i128 = earlier.as_nanos();
        let now_of_day: u64 = self.second_of_day();
        let earlier_of_day: u64 = earlier.second_of_day();
        let leap: i128 = if now_of_day > earlier_of_day && earlier.nanos >= 1_000_000_000 {
            1_000_000_000
        } else if now_of_day < earlier_of_day && self.nanos >= 1_000_000_000 {
            -1_000_000_000
        } else {
            0
        };
        now - before + leap < seconds as i128 * 1_000_000_000
    }
}

/// The HTTP date of the second `seconds` after the start of 1970.
pub uninterp spec fn http_date_text(seconds: u64) -> Seq<char>;

/// Calls `httpdate::fmt_http_date`: the second as an HTTP date. Only seconds
/// from 1970 to 9999 have one.
#[verifier::external_body]
fn format_http_date(seconds: u64) -> (date: String)
    requires
        seconds < HTTP_DATE_LIMIT,
    ensures
        date@ == http_date_text(seconds),
{
    httpdate::fmt_http_date(
        std::time::SystemTime::UNIX_EPOCH + std::time::Duration::from_secs(seconds),
    )
}

/// The second, from 1970 on, that an HTTP date in any of its three forms names.
pub uninterp spec fn http_date_second(date: Seq<char>) -> Option<u64>;

/// Calls `httpdate::parse_http_date`: the second that an HTTP date names, if
/// the text is one. The date that a second is formatted as names that second.
#[verifier::external_body]
pub(crate) fn parse_http_date(date: &str) -> (seconds: Option<u64>)
    ensures
        seconds == http_date_second(date@),
        forall|second: u64|
            second < HTTP_DATE_LIMIT && date@ == #[trigger] http_date_text(second) ==> seconds
                == Some(second),
{
    match httpdate::parse_http_date(date) {
        Ok(at) => match at.duration_since(std::time::SystemTime::UNIX_EPOCH) {
            Ok(age) => Some(age.as_secs()),
            Err(_) => None,
        },
        Err(_) => None,
    }
}

/// Whether a number of nanoseconds since the start of 1970 has an HTTP date.
pub open spec fn has_http_date(at: int) -> bool {
    0 <= whole_second(at) < HTTP_DATE_LIMIT
}

/// The HTTP date of the whole second that a number of nanoseconds since the start
/// of 1970 lies in.
pub open spec fn date_of(at: int) -> Seq<char> {
    http_date_text(whole_second(at) as u64)
}

/// The HTTP date of the whole second that a timestamp lies in.
pub fn http_date(timestamp: &Timestamp) -> (date: String)
    requires
        has_http_date(unix_nanos(timestamp@)),
    ensures
        date@ == date_of(unix_nanos(timestamp@)),
{
    let at: i128 = timestamp.as_nanos();
    format_http_date((at / 1_000_000_000) as u64)
}

/// The HTTP date of the whole second that a number of nanoseconds since the
/// start of 1970 lies in, if it has one.
pub fn http_date_of_nanos(at: i128) -> (date: Option<String>)
    ensures
        match date {
            Some(written) => has_http_date(at as int) && written@ == date_of(at as int),
            None => !has_http_date(at as int),
        },
{
    if at < 0 {
        return None;
    }
    let seconds: i128 = at / 1_000_000_000;
    if seconds >= HTTP_DATE_LIMIT as i128 {
        return None;
    }
    Some(format_http_date(seconds as u64))
}

/// The RFC 3339 text, to the second and with `Z`, of the point in time `nanos`
/// nanoseconds behind the start of second `seconds`.
pub uninterp spec fn rfc3339_text(seconds: i64, nanos: u32) -> Seq<char>;

/// Calls `to_rfc3339_opts` of `chrono::DateTime<Utc>` with whole seconds and
/// `Z`, on a point in time that `chrono` can represent, leap seconds among them.
#[verifier::external_body]
fn format_rfc3339(seconds: i64, nanos: u32) -> (date: String)
    requires
        is_instant(TimeView { second: seconds as int, nanos: nanos as int }),
    ensures
        date@ == rfc3339_text(seconds, nanos),
{
    chrono::DateTime::<chrono::Utc>::from_timestamp(seconds, nanos)
        .expect("a point in time in range")
        .to_rfc3339_opts(chrono::SecondsFormat::Secs, true)
}

/// The RFC 3339 text of a timestamp, to the second.
pub fn rfc3339(timestamp: &Timestamp) -> (date: String)
    ensures
        date@ == rfc3339_text(timestamp@.second as i64, timestamp@.nanos as u32),
{
    format_rfc3339(timestamp.seconds(), timestamp.nanos())
}

/// The date of a point in time is that of the second that it lies in: the one that
/// has begun and not ended.
pub proof fn lemma_date_is_of_its_second(at: int, second: u64)
    requires
        second * 1_000_000_000 <= at < (second + 1) * 1_000_000_000,
    ensures
        date_of(at) == http_date_text(second),
        has_http_date(at) <==> second < HTTP_DATE_LIMIT,
{
    assert(at / 1_000_000_000 == second);
}

/// Points in time outside of leap seconds are as far apart as their nanoseconds
/// since 1970 say, and a second is reached by those that are not behind its start.
pub proof fn lemma_ordinary_times_are_apart(now: TimeView, earlier: TimeView, second: int)
    requires
        0 <= now.nanos < 1_000_000_000,
        0 <= earlier.nanos < 1_000_000_000,
    ensures
        elapsed(now, earlier) == (now.second - earlier.second) * 1_000_000_000 + now.nanos
            - earlier.nanos,
        elapsed(now, now) == 0,
        elapsed(now, earlier) == -elapsed(earlier, now),
        is_reached(now, second) <==> now.second * 1_000_000_000 + now.nanos <= second
            * 1_000_000_000,
{
}

/// A later second reaches all that an earlier one does.
pub proof fn lemma_later_seconds_reach_more(at: TimeView, second: int, later: int)
    requires
        second <= later,
        is_reached(at, second),
    ensures
        is_reached(at, later),
{
}

/// Inside a leap second the time goes on: what lies in it is behind the second
/// before and not reached by the start of the second behind it as long as any of
/// it has passed.
pub proof fn lemma_leap_second_is_not_reached(at: TimeView)
    requires
        is_instant(at),
        at.nanos >= 1_000_000_000,
    ensures
        at.second % 60 == 59,
        !is_reached(at, at.second),
        is_reached(at, at.second + 1),
        elapsed(at, TimeView { nanos: 999_999_999, ..at }) == at.nanos - 999_999_999,
{
}

/// From one point in time to another it is as far as back again, leap seconds or
/// not. Where the later one of a day lies behind a leap second that the earlier one
/// lies in, that second has passed too.
pub proof fn lemma_elapsed_is_the_same_both_ways(now: TimeView, earlier: TimeView)
    ensures
        elapsed(now, earlier) == -elapsed(earlier, now),
        elapsed(now, now) == 0,
        earlier.nanos >= 1_000_000_000 && now.second % 86_400 > earlier.second % 86_400
            ==> elapsed(now, earlier) == unix_nanos(now) - unix_nanos(earlier) + 1_000_000_000,
{
}

} // verus!
