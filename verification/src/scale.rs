//! The resolutions the API serves, and the numbers that matter about each: how
//! long one point covers, how much a single request may ask for, and how far
//! back the cloud still answers.

use crate::text;
use crate::time::{self, Duration};
use vstd::prelude::*;

verus! {

/// A resolution. Seconds are deliberately absent: they would be some six
/// million rows a day to answer questions nobody has asked.
#[derive(Copy, Clone, Debug, PartialEq, Eq, Structural, PartialOrd, Ord, Hash)]
pub enum Scale {
    Minute,
    QuarterHour,
    Hour,
    Day,
}

/// Every scale, finest first.
pub const SCALES: [Scale; 4] = [Scale::Minute, Scale::QuarterHour, Scale::Hour, Scale::Day];

impl Scale {
    /// How the API spells this scale.
    pub open spec fn name(self) -> Seq<char> {
        match self {
            Scale::Minute => "1MIN"@,
            Scale::QuarterHour => "15MIN"@,
            Scale::Hour => "1H"@,
            Scale::Day => "1D"@,
        }
    }

    /// The seconds that one point covers.
    pub open spec fn step_seconds(self) -> int {
        match self {
            Scale::Minute => 60,
            Scale::QuarterHour => 900,
            Scale::Hour => 3600,
            Scale::Day => 86_400,
        }
    }

    /// The most seconds that one request may span.
    pub open spec fn ceiling_seconds(self) -> int {
        match self {
            Scale::Minute => 48_000,
            Scale::QuarterHour => 604_800,
            Scale::Hour => 2_880_000,
            Scale::Day => 43_200_000,
        }
    }

    /// The days that the cloud keeps, or `None` for as far as the account goes.
    pub open spec fn retained_days(self) -> Option<int> {
        match self {
            Scale::Minute => Some(6),
            Scale::QuarterHour => Some(360),
            Scale::Hour => None,
            Scale::Day => None,
        }
    }

    /// The place of this scale among all of them, finest first.
    pub open spec fn rank(self) -> int {
        match self {
            Scale::Minute => 0,
            Scale::QuarterHour => 1,
            Scale::Hour => 2,
            Scale::Day => 3,
        }
    }

    /// What the `scale` query parameter has to say. These spellings are the
    /// API's and are not derivable from the variant names.
    pub fn api_name(self) -> (r: &'static str)
        ensures
            r@ == self.name(),
    {
        match self {
            Scale::Minute => "1MIN",
            Scale::QuarterHour => "15MIN",
            Scale::Hour => "1H",
            Scale::Day => "1D",
        }
    }

    /// How long one point covers. Used to step through a list of usages that
    /// arrives with only its first instant given.
    pub fn step(self) -> (d: Duration)
        ensures
            d@ == time::seconds(self.step_seconds()),
    {
        match self {
            Scale::Minute => Duration::minutes(1),
            Scale::QuarterHour => Duration::minutes(15),
            Scale::Hour => Duration::hours(1),
            Scale::Day => Duration::days(1),
        }
    }

    /// The most one request may span. Asking for more is refused outright,
    /// never answered short, so this is respected exactly.
    pub fn ceiling(self) -> (d: Duration)
        ensures
            d@ == time::seconds(self.ceiling_seconds()),
    {
        match self {
            Scale::Minute => Duration::minutes(800),
            Scale::QuarterHour => Duration::hours(168),
            Scale::Hour => Duration::hours(800),
            Scale::Day => Duration::hours(12000),
        }
    }

    /// How far back the cloud still answers, a little less than was measured:
    /// the edge rolls, and asking past it is answered with nothing. `None`
    /// means as far as the account goes.
    pub fn retained(self) -> (d: Option<Duration>)
        ensures
            d is Some <==> self.retained_days() is Some,
            d matches Some(d) ==> d@ == time::days(self.retained_days()->0),
    {
        match self {
            Scale::Minute => Some(Duration::days(6)),
            Scale::QuarterHour => Some(Duration::days(360)),
            Scale::Hour => None,
            Scale::Day => None,
        }
    }
}

/// A request at the ceiling asks for a whole number of points.
pub proof fn law_ceilings_are_whole_numbers_of_points(s: Scale)
    ensures
        s.ceiling_seconds() % s.step_seconds() == 0,
        s.ceiling_seconds() >= s.step_seconds() > 0,
{
}

/// What the cloud keeps of a scale takes fewer than a hundred requests.
pub proof fn law_retention_takes_few_requests(s: Scale)
    ensures
        s.retained_days() matches Some(d) ==> d * time::DAY / s.ceiling_seconds() < 100,
{
}

/// No two scales are spelled alike.
pub proof fn law_names_are_distinct(a: Scale, b: Scale)
    ensures
        a.name() == b.name() ==> a == b,
{
    reveal_strlit("1MIN");
    reveal_strlit("15MIN");
    reveal_strlit("1H");
    reveal_strlit("1D");
    assert("1MIN"@.len() == 4 && "15MIN"@.len() == 5 && "1H"@.len() == 2 && "1D"@.len() == 2);
    assert("1H"@[1] == 'H' && "1D"@[1] == 'D');
}

/// A scale ranks higher exactly when its points are longer.
pub proof fn law_rank_orders_by_step(a: Scale, b: Scale)
    ensures
        a.rank() < b.rank() <==> a.step_seconds() < b.step_seconds(),
{
}

/// The scale of a name, if it is one.
pub open spec fn scale_called(name: Seq<char>) -> Option<Scale> {
    if name == Scale::Minute.name() {
        Some(Scale::Minute)
    } else if name == Scale::QuarterHour.name() {
        Some(Scale::QuarterHour)
    } else if name == Scale::Hour.name() {
        Some(Scale::Hour)
    } else if name == Scale::Day.name() {
        Some(Scale::Day)
    } else {
        None
    }
}

impl Scale {
    /// The scale of a name, if it is one.
    pub fn called(name: &str) -> (r: Option<Scale>)
        ensures
            r == scale_called(name@),
    {
        if text::same(name, Scale::Minute.api_name()) {
            Some(Scale::Minute)
        } else if text::same(name, Scale::QuarterHour.api_name()) {
            Some(Scale::QuarterHour)
        } else if text::same(name, Scale::Hour.api_name()) {
            Some(Scale::Hour)
        } else if text::same(name, Scale::Day.api_name()) {
            Some(Scale::Day)
        } else {
            None
        }
    }
}

/// Every scale is found by its own name.
pub proof fn law_a_scale_is_found_by_its_name(s: Scale)
    ensures
        scale_called(s.name()) == Some(s),
{
    let found = scale_called(s.name());
    assert(found is Some);
    law_names_are_distinct(found->0, s);
}

/// A point of a scale covers a minute, a quarter of an hour, an hour or a day.
pub proof fn law_a_point_covers_its_scale(s: Scale)
    ensures
        s == Scale::Minute ==> s.step_seconds() == 60,
        s == Scale::QuarterHour ==> s.step_seconds() == 15 * 60,
        s == Scale::Hour ==> s.step_seconds() == 60 * 60,
        s == Scale::Day ==> s.step_seconds() == 24 * 60 * 60,
{
}

/// A request spans at most 800 minutes of minutes, 168 hours of quarter-hours,
/// 800 hours of hours and 12000 hours of days.
pub proof fn law_a_request_spans_no_more_than_is_answered(s: Scale)
    ensures
        s == Scale::Minute ==> s.ceiling_seconds() == 800 * 60,
        s == Scale::QuarterHour ==> s.ceiling_seconds() == 168 * 3600,
        s == Scale::Hour ==> s.ceiling_seconds() == 800 * 3600,
        s == Scale::Day ==> s.ceiling_seconds() == 12_000 * 3600,
{
}

/// Minutes are kept six days and quarter-hours 360; hours and days are kept for
/// as long as there is an account.
pub proof fn law_only_fine_scales_expire(s: Scale)
    ensures
        s == Scale::Minute ==> s.retained_days() == Some(6int),
        s == Scale::QuarterHour ==> s.retained_days() == Some(360int),
        s == Scale::Hour || s == Scale::Day ==> s.retained_days() is None,
{
}

/// Each scale is spelled as the API spells it.
pub proof fn law_scales_are_spelled_as_the_api_does(s: Scale)
    ensures
        s == Scale::Minute ==> s.name() == "1MIN"@,
        s == Scale::QuarterHour ==> s.name() == "15MIN"@,
        s == Scale::Hour ==> s.name() == "1H"@,
        s == Scale::Day ==> s.name() == "1D"@,
{
}

/// A text is the name of a scale exactly where the scale is spelled so, letter
/// for letter.
pub proof fn law_a_name_is_that_of_one_scale_at_most(name: Seq<char>, s: Scale)
    ensures
        scale_called(name) == Some(s) <==> name == s.name(),
        scale_called(name) is None <==> name != "1MIN"@ && name != "15MIN"@ && name != "1H"@
            && name != "1D"@,
{
    law_a_scale_is_found_by_its_name(s);
    if let Some(found) = scale_called(name) {
        law_names_are_distinct(found, s);
    }
}

} // verus!
