//! Instants, durations and the offset of a local clock.
//!
//! An instant is a number of nanoseconds from the Unix epoch, within the years
//! that `chrono` can represent; how one is written is left to `chrono`.

use crate::text;
use vstd::prelude::*;

verus! {

/// Nanoseconds in a second.
pub const NANOS: i128 = 1_000_000_000;

/// The first second of the first day that `chrono` represents.
pub const MIN_SECONDS: i64 = -8_334_601_228_800;

/// The last second of the last day that `chrono` represents.
pub const MAX_SECONDS: i64 = 8_210_266_876_799;

/// The last day that `chrono` represents, counted from 1970-01-01.
pub const MAX_DAY: i64 = 95_026_236;

/// Seconds in a day.
pub const DAY: i64 = 86_400;

/// A length of time, in nanoseconds; it may be negative.
#[derive(Copy, Clone, Debug, PartialEq, Eq, Structural, PartialOrd, Ord, Hash)]
pub struct Duration {
    pub nanos: i128,
}

impl View for Duration {
    type V = int;

    open spec fn view(&self) -> int {
        self.nanos as int
    }
}

/// A moment, in nanoseconds from 1970-01-01T00:00:00Z.
#[derive(Copy, Clone, Debug, PartialEq, Eq, Structural, PartialOrd, Ord, Hash)]
pub struct Instant {
    pub nanos: i128,
}

impl View for Instant {
    type V = int;

    open spec fn view(&self) -> int {
        self.nanos as int
    }
}

/// A clock's distance east of Greenwich, in seconds.
#[derive(Copy, Clone, Debug, PartialEq, Eq, Structural)]
pub struct Zone {
    pub east: i32,
}

impl Zone {
    /// An offset of less than a day either way.
    pub open spec fn valid(self) -> bool {
        -86_400 < self.east < 86_400
    }
}

/// Whether a number of nanoseconds names a moment that can be represented.
pub open spec fn representable(nanos: int) -> bool {
    MIN_SECONDS * NANOS <= nanos <= MAX_SECONDS * NANOS + 999_999_999
}

/// A number of seconds, as nanoseconds.
pub open spec fn seconds(n: int) -> int {
    n * NANOS
}

/// A number of days, as nanoseconds.
pub open spec fn days(n: int) -> int {
    n * DAY * NANOS
}

impl Duration {
    pub fn seconds(n: i64) -> (d: Duration)
        ensures
            d@ == seconds(n as int),
    {
        Duration { nanos: n as i128 * NANOS }
    }

    pub fn minutes(n: i64) -> (d: Duration)
        ensures
            d@ == seconds(60 * n),
    {
        Duration { nanos: n as i128 * 60 * NANOS }
    }

    pub fn hours(n: i64) -> (d: Duration)
        ensures
            d@ == seconds(3600 * n),
    {
        Duration { nanos: n as i128 * 3600 * NANOS }
    }

    pub fn days(n: i64) -> (d: Duration)
        ensures
            d@ == days(n as int),
    {
        Duration { nanos: n as i128 * 86_400 * NANOS }
    }
}

/// The local day, counted from 1970-01-01, of a second read on a clock `east`
/// seconds east of Greenwich.
pub open spec fn local_day(secs: int, east: int) -> int {
    (secs + east) / 86_400
}

/// The second at which that local day began.
pub open spec fn local_midnight_seconds(secs: int, east: int) -> int {
    local_day(secs, east) * 86_400 - east
}

/// Local midnight: the second at which the local day began, unless that second
/// lies before the first that can be represented or the local day after the last.
fn local_midnight(secs: i64, east: i32) -> (m: Option<i64>)
    requires
        MIN_SECONDS <= secs <= MAX_SECONDS,
        -86_400 < east < 86_400,
    ensures
        m == (if local_midnight_seconds(secs as int, east as int) >= MIN_SECONDS && local_day(
            secs as int,
            east as int,
        ) <= MAX_DAY {
            Some(local_midnight_seconds(secs as int, east as int) as i64)
        } else {
            None
        }),
{
    let local: i64 = secs + east as i64;
    let day: i64 = if local >= 0 {
        local / DAY
    } else {
        -((-local - 1) / DAY) - 1
    };
    let midnight: i64 = day * DAY - east as i64;
    if midnight >= MIN_SECONDS && day <= MAX_DAY {
        Some(midnight)
    } else {
        None
    }
}

/// The pattern of an instant in a request: no fraction of a second, and `Z`.
pub const STAMP_PATTERN: &'static str = "%Y-%m-%dT%H:%M:%SZ";

/// The first second of year 0.
pub const YEAR_ZERO: i64 = -62_167_219_200;

/// The last second of year 9999.
pub const YEAR_9999_END: i64 = 253_402_300_799;

/// What `chrono` writes for a second of UTC under a pattern.
pub uninterp spec fn formatted(secs: int, pattern: Seq<char>) -> Seq<char>;

/// Whether a text has the shape `dddd-dd-ddTdd:dd:ddZ`, each `d` a digit.
pub open spec fn stamp_shaped(s: Seq<char>) -> bool {
    &&& s.len() == 20
    &&& s[4] == '-' && s[7] == '-' && s[10] == 'T' && s[13] == ':' && s[16] == ':' && s[19] == 'Z'
    &&& forall|i: int|
        0 <= i < 19 && i != 4 && i != 7 && i != 10 && i != 13 && i != 16 ==> '0' <= #[trigger] s[i]
            <= '9'
}

/// `chrono`'s `DateTime::from_timestamp`, and what `DateTime::format` writes for
/// it under the pattern.
///
/// Claimed of it: the text depends on the second and the pattern alone, and in
/// the years 0 to 9999, which are written with four digits and no sign, it has
/// the pattern's fixed shape.
#[verifier::external_body]
fn format_utc(secs: i64, pattern: &str) -> (s: String)
    requires
        MIN_SECONDS <= secs <= MAX_SECONDS,
        pattern@ == STAMP_PATTERN@,
    ensures
        s@ == formatted(secs as int, pattern@),
        YEAR_ZERO <= secs <= YEAR_9999_END ==> stamp_shaped(s@),
{
    chrono::DateTime::from_timestamp(secs, 0).unwrap().format(pattern).to_string()
}

/// What `chrono` writes, as RFC 3339, for an instant on a clock `east` seconds
/// east of Greenwich.
pub uninterp spec fn rfc3339_local(secs: int, nanos: int, east: int) -> Seq<char>;

/// An offset as RFC 3339 writes it, to the nearest minute: a sign, two digits
/// of hours, a colon and two digits of minutes.
pub open spec fn offset_text(east: int) -> Seq<char> {
    let size = if east < 0 { -east } else { east };
    let minutes = (size + 30) / 60;
    seq![
        if east < 0 { '-' } else { '+' },
        text::digit((minutes / 600) as nat),
        text::digit((minutes / 60 % 10) as nat),
        ':',
        text::digit((minutes % 60 / 10) as nat),
        text::digit((minutes % 10) as nat),
    ]
}

/// Whether a text ends with another.
pub open spec fn ends_with(s: Seq<char>, end: Seq<char>) -> bool {
    s.len() >= end.len() && s.skip(s.len() - end.len()) == end
}

/// `chrono`'s `DateTime::with_timezone` to a `FixedOffset` and `to_rfc3339` of that.
///
/// Claimed of it: the text depends on the instant and the offset alone, and it
/// ends with the offset.
#[verifier::external_body]
fn to_rfc3339(secs: i64, nanos: u32, east: i32) -> (s: String)
    requires
        MIN_SECONDS <= secs <= MAX_SECONDS,
        nanos < 1_000_000_000,
        -86_400 < east < 86_400,
    ensures
        s@ == rfc3339_local(secs as int, nanos as int, east as int),
        ends_with(s@, offset_text(east as int)),
{
    let zone = chrono::FixedOffset::east_opt(east).unwrap();
    chrono::DateTime::from_timestamp(secs, nanos).unwrap().with_timezone(&zone).to_rfc3339()
}

/// The whole seconds in a length of time, the fraction dropped.
pub open spec fn whole_seconds(nanos: int) -> int {
    if nanos < 0 {
        -((-nanos) / (NANOS as int))
    } else {
        nanos / (NANOS as int)
    }
}

impl Duration {
    /// The whole seconds in this length of time, the fraction dropped.
    pub fn num_seconds(self) -> (n: i64)
        requires
            i64::MIN <= whole_seconds(self@) <= i64::MAX,
        ensures
            n == whole_seconds(self@),
    {
        if self.nanos < 0 {
            (-((-self.nanos) / NANOS)) as i64
        } else {
            (self.nanos / NANOS) as i64
        }
    }
}

/// The whole days in a length of time, the fraction dropped.
pub open spec fn whole_days(nanos: int) -> int {
    let n = whole_seconds(nanos);
    if n < 0 {
        -((-n) / (DAY as int))
    } else {
        n / (DAY as int)
    }
}

impl Duration {
    /// The whole days in this length of time, the fraction dropped.
    pub fn num_days(self) -> (n: i64)
        requires
            i64::MIN < whole_seconds(self@) <= i64::MAX,
        ensures
            n == whole_days(self@),
    {
        let secs = self.num_seconds();
        if secs < 0 {
            -((-secs) / DAY)
        } else {
            secs / DAY
        }
    }
}

impl Instant {
    /// A moment within the years that can be represented.
    pub open spec fn valid(self) -> bool {
        representable(self@)
    }

    /// The whole seconds from the epoch to the start of the second it lies in.
    pub open spec fn second(self) -> int {
        self@ / (NANOS as int)
    }

    /// The nanoseconds into that second.
    pub open spec fn fraction(self) -> int {
        self@ % (NANOS as int)
    }

    /// The moment `nanos` nanoseconds after a second of the epoch, where it can
    /// be represented.
    pub fn at(secs: i64, nanos: u32) -> (t: Option<Instant>)
        ensures
            t is Some <==> MIN_SECONDS <= secs <= MAX_SECONDS && nanos < 1_000_000_000,
            t matches Some(t) ==> t@ == seconds(secs as int) + nanos && t.valid(),
    {
        if MIN_SECONDS <= secs && secs <= MAX_SECONDS && nanos < 1_000_000_000 {
            Some(Instant { nanos: secs as i128 * NANOS + nanos as i128 })
        } else {
            None
        }
    }

    /// Whether this moment lies within the years that can be represented.
    pub fn in_range(self) -> (r: bool)
        ensures
            r == self.valid(),
    {
        MIN_SECONDS as i128 * NANOS <= self.nanos && self.nanos <= MAX_SECONDS as i128 * NANOS
            + 999_999_999
    }

    /// The moment a length of time later.
    pub fn plus(self, d: Duration) -> (t: Instant)
        requires
            representable(self@ + d@),
        ensures
            t@ == self@ + d@,
    {
        Instant { nanos: self.nanos + d.nanos }
    }

    /// The moment a length of time earlier.
    pub fn minus(self, d: Duration) -> (t: Instant)
        requires
            representable(self@ - d@),
        ensures
            t@ == self@ - d@,
    {
        Instant { nanos: self.nanos - d.nanos }
    }

    /// The length of time from an earlier moment to this one.
    pub fn since(self, earlier: Instant) -> (d: Duration)
        requires
            self.valid(),
            earlier.valid(),
        ensures
            d@ == self@ - earlier@,
    {
        Duration { nanos: self.nanos - earlier.nanos }
    }

    /// Whole seconds from the epoch, counted down to the start of the second.
    pub fn timestamp(self) -> (n: i64)
        requires
            self.valid(),
        ensures
            n == self.second(),
            MIN_SECONDS <= n <= MAX_SECONDS,
    {
        if self.nanos >= 0 {
            (self.nanos / NANOS) as i64
        } else {
            (-((-self.nanos - 1) / NANOS) - 1) as i64
        }
    }

    /// Nanoseconds into the second.
    pub fn subsec_nanos(self) -> (n: u32)
        requires
            self.valid(),
        ensures
            n == self.fraction(),
            n < 1_000_000_000,
    {
        let secs = self.timestamp();
        (self.nanos - secs as i128 * NANOS) as u32
    }

    /// The moment at which the local day of this one began, where it can be
    /// represented.
    pub open spec fn day_start(self, zone: Zone) -> Option<int> {
        let midnight = local_midnight_seconds(self.second(), zone.east as int);
        if midnight >= MIN_SECONDS && local_day(self.second(), zone.east as int) <= MAX_DAY {
            Some(seconds(midnight))
        } else {
            None
        }
    }

    /// The moment at which the day around this one began on a local clock.
    pub fn midnight(self, zone: Zone) -> (t: Option<Instant>)
        requires
            self.valid(),
            zone.valid(),
        ensures
            t matches Some(t) ==> t.valid() && self.day_start(zone) == Some(t@),
            t is None ==> self.day_start(zone) is None,
    {
        match local_midnight(self.timestamp(), zone.east) {
            Some(secs) => Some(Instant { nanos: secs as i128 * NANOS }),
            None => None,
        }
    }

    /// The text of this moment in a request.
    pub open spec fn stamp(self) -> Seq<char> {
        formatted(self.second(), STAMP_PATTERN@)
    }

    /// This moment without its fraction of a second, and with `Z` for its offset.
    pub fn rfc3339(self) -> (s: String)
        requires
            self.valid(),
        ensures
            s@ == self.stamp(),
            YEAR_ZERO <= self.second() <= YEAR_9999_END ==> stamp_shaped(s@),
    {
        format_utc(self.timestamp(), STAMP_PATTERN)
    }

    /// The text of this moment on a local clock.
    pub open spec fn local_stamp(self, zone: Zone) -> Seq<char> {
        rfc3339_local(self.second(), self.fraction(), zone.east as int)
    }

    /// This moment as RFC 3339 writes it on a local clock, the offset included.
    pub fn local_text(self, zone: Zone) -> (s: String)
        requires
            self.valid(),
            zone.valid(),
        ensures
            s@ == self.local_stamp(zone),
            ends_with(s@, offset_text(zone.east as int)),
    {
        to_rfc3339(self.timestamp(), self.subsec_nanos(), zone.east)
    }
}

/// A local day began no later than any moment of it, and less than a day before.
pub proof fn law_midnight_starts_the_day(t: Instant, zone: Zone)
    requires
        t.day_start(zone) is Some,
    ensures
        t.day_start(zone)->0 <= t@ < t.day_start(zone)->0 + days(1),
{
}

/// A second is a thousand million nanoseconds, and a day 86400 seconds.
pub proof fn law_units_are_what_they_are_called(n: int)
    ensures
        seconds(n) == n * 1_000_000_000,
        days(n) == n * 86_400 * 1_000_000_000,
        days(n) == seconds(n * 86_400),
{
}

/// Whole seconds are counted toward zero: what is dropped is less than a second,
/// on the side of the sign, and a length of time and its opposite are counted
/// alike.
pub proof fn law_a_fraction_of_a_second_is_dropped(nanos: int)
    ensures
        nanos >= 0 ==> 0 <= nanos - whole_seconds(nanos) * 1_000_000_000 < 1_000_000_000,
        nanos >= 0 ==> whole_seconds(nanos) >= 0,
        whole_seconds(-nanos) == -whole_seconds(nanos),
{
}

/// Whole days are counted toward zero: what is dropped is less than a day, on the
/// side of the sign, and a length of time and its opposite are counted alike.
pub proof fn law_a_fraction_of_a_day_is_dropped(nanos: int)
    ensures
        nanos >= 0 ==> 0 <= nanos - whole_days(nanos) * 86_400_000_000_000 < 86_400_000_000_000,
        nanos >= 0 ==> whole_days(nanos) >= 0,
        whole_days(-nanos) == -whole_days(nanos),
{
}

/// The local day of a moment began at a whole second at which a clock of the zone
/// shows midnight, no later than the moment and less than a day before it. Only
/// within a day and a night of the ends of time has it no beginning.
pub proof fn law_a_local_day_begins_at_midnight(t: Instant, zone: Zone)
    requires
        zone.valid(),
    ensures
        t.day_start(zone) matches Some(m) ==> {
            &&& m <= t@ < m + 86_400_000_000_000
            &&& m % 1_000_000_000 == 0
            &&& (m / 1_000_000_000 + zone.east) % 86_400 == 0
        },
        -8_334_601_228_800 + 172_800 <= t@ / 1_000_000_000 <= 8_210_266_876_799 - 172_800
            ==> t.day_start(zone) is Some,
{
    let secs = local_midnight_seconds(t.second(), zone.east as int);
    assert(seconds(secs) % 1_000_000_000 == 0 && seconds(secs) / 1_000_000_000 == secs);
    assert((secs + zone.east) % 86_400 == 0) by {
        assert(secs + zone.east == local_day(t.second(), zone.east as int) * 86_400);
    }
}

/// The moments that can be represented are those from the first second of the
/// first day to the last nanosecond of the last.
pub proof fn law_the_ends_of_time(nanos: int)
    ensures
        representable(nanos) <==> -8_334_601_228_800 * 1_000_000_000 <= nanos
            < 8_210_266_876_800 * 1_000_000_000,
{
}

/// The text of a moment in a request is that of the second that it lies in,
/// whatever the fraction.
pub proof fn law_a_request_names_the_second(t: Instant)
    ensures
        t.stamp() == formatted(t@ / 1_000_000_000, "%Y-%m-%dT%H:%M:%SZ"@),
{
}

/// The text of a moment on a local clock is that of the whole moment at the
/// clock's own offset.
pub proof fn law_a_local_text_is_of_the_moment_itself(t: Instant, zone: Zone)
    ensures
        t.local_stamp(zone) == rfc3339_local(
            t@ / 1_000_000_000,
            t@ % 1_000_000_000,
            zone.east as int,
        ),
{
}

/// A moment is the nanoseconds from the epoch that it holds: whole seconds counted
/// down, and what is left of the last one.
pub proof fn law_a_moment_is_its_seconds_and_its_fraction(t: Instant)
    ensures
        t@ == t.nanos,
        t@ == t.second() * 1_000_000_000 + t.fraction(),
        0 <= t.fraction() < 1_000_000_000,
{
}

/// A local day has a beginning exactly where its midnight is not before the first
/// moment of all, and the day itself not after the last.
pub proof fn law_when_a_local_day_has_a_beginning(t: Instant, zone: Zone, midnight: int)
    requires
        midnight * 1_000_000_000 <= t@ < (midnight + 86_400) * 1_000_000_000,
        (midnight + zone.east) % 86_400 == 0,
    ensures
        t.day_start(zone) == (if midnight >= -8_334_601_228_800 && (midnight + zone.east) / 86_400
            <= 95_026_236 {
            Some(midnight * 1_000_000_000)
        } else {
            None
        }),
{
    let day = local_day(t.second(), zone.east as int);
    let own = (midnight + zone.east) / 86_400;
    assert(midnight + zone.east == own * 86_400);
    assert(midnight <= t.second() < midnight + 86_400);
    assert(day == own);
}

} // verus!
