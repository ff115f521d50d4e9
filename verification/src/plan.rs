//! What to ask for next.
//!
//! For every channel and scale the store knows the newest instant it holds; this
//! turns that, a clock and the account's own start into a list of windows to
//! fetch. An empty store makes the start the earliest the scale serves, which is
//! the one-time historical load; a four-minute restart makes it four minutes.

use crate::scale::{Scale, SCALES};
use crate::time::{self, Duration, Instant};
use vstd::prelude::*;

verus! {

/// One channel at one resolution: what a watermark is kept for.
#[derive(Debug, PartialEq, Eq, PartialOrd, Ord, Hash)]
pub struct Series {
    pub device_gid: i64,
    pub channel_num: String,
    pub scale: Scale,
}

/// A series, its channel number as characters.
pub struct SeriesView {
    pub device_gid: i64,
    pub channel_num: Seq<char>,
    pub scale: Scale,
}

impl View for Series {
    type V = SeriesView;

    open spec fn view(&self) -> SeriesView {
        SeriesView {
            device_gid: self.device_gid,
            channel_num: self.channel_num@,
            scale: self.scale,
        }
    }
}

impl Clone for Series {
    fn clone(&self) -> (r: Series)
        ensures
            r == *self,
    {
        Series {
            device_gid: self.device_gid,
            channel_num: self.channel_num.clone(),
            scale: self.scale,
        }
    }
}

/// One request, from an instant to an instant.
#[derive(Debug, PartialEq, Eq)]
pub struct Fetch {
    pub series: Series,
    pub start: Instant,
    pub end: Instant,
}

/// A request, its series as a view and its instants as nanoseconds.
pub struct FetchView {
    pub series: SeriesView,
    pub start: int,
    pub end: int,
}

impl View for Fetch {
    type V = FetchView;

    open spec fn view(&self) -> FetchView {
        FetchView { series: self.series@, start: self.start@, end: self.end@ }
    }
}

impl Clone for Fetch {
    fn clone(&self) -> (r: Fetch)
        ensures
            r == *self,
    {
        Fetch { series: self.series.clone(), start: self.start, end: self.end }
    }
}

/// The requests in a list, as views.
pub open spec fn views(fetches: Seq<Fetch>) -> Seq<FetchView> {
    fetches.map_values(|f: Fetch| f@)
}

/// What the store already holds for one series.
#[derive(Copy, Clone, Debug, PartialEq, Eq, Structural)]
pub struct Watermark {
    pub newest: Option<Instant>,
}

impl Default for Watermark {
    /// A store that holds nothing.
    fn default() -> (w: Watermark)
        ensures
            w.newest is None,
    {
        Watermark { newest: None }
    }
}

/// A channel as the device list describes it.
#[derive(Debug, PartialEq, Eq)]
pub struct Channel {
    pub device_gid: i64,
    pub channel_num: String,
}

impl Clone for Channel {
    fn clone(&self) -> (r: Channel)
        ensures
            r == *self,
    {
        Channel { device_gid: self.device_gid, channel_num: self.channel_num.clone() }
    }
}

/// Everything the planner needs that is not a channel list.
#[derive(Copy, Clone, Debug)]
pub struct Horizon {
    /// Nothing exists before the account does, so no scale is asked to look
    /// further back, however generous its retention is.
    pub account_created: Instant,
    pub now: Instant,
}

impl Horizon {
    /// Two moments that can be represented.
    pub open spec fn valid(self) -> bool {
        self.account_created.valid() && self.now.valid()
    }
}

/// The series of a channel at a scale.
pub open spec fn series_of(channel: Channel, scale: Scale) -> SeriesView {
    SeriesView {
        device_gid: channel.device_gid,
        channel_num: channel.channel_num@,
        scale,
    }
}

/// The earliest instant worth asking a scale for: there is nothing before the
/// account existed, and nothing older than the cloud keeps.
pub open spec fn earliest(scale: Scale, h: Horizon) -> int {
    match scale.retained_days() {
        Some(kept) => if h.now@ - time::days(kept) > h.account_created@ {
            h.now@ - time::days(kept)
        } else {
            h.account_created@
        },
        None => h.account_created@,
    }
}

/// Where a series is taken up: one point before the newest one held, so that a
/// boundary can leave no hole, but not before the earliest worth asking for.
pub open spec fn resumption(mark: Watermark, scale: Scale, h: Horizon) -> int {
    match mark.newest {
        Some(newest) => if newest@ - time::seconds(scale.step_seconds()) < earliest(scale, h) {
            earliest(scale, h)
        } else {
            newest@ - time::seconds(scale.step_seconds())
        },
        None => earliest(scale, h),
    }
}

/// How many windows of at most `ceiling` cover a range.
pub open spec fn window_count(span: int, ceiling: int) -> nat {
    if span <= 0 {
        0
    } else {
        ((span - 1) / ceiling + 1) as nat
    }
}

/// The window at a position: each begins where the one before ended, and only
/// the last may be shorter than the ceiling.
pub open spec fn window(series: SeriesView, start: int, end: int, k: int) -> FetchView {
    let ceiling = time::seconds(series.scale.ceiling_seconds());
    FetchView {
        series,
        start: start + k * ceiling,
        end: if start + (k + 1) * ceiling < end {
            start + (k + 1) * ceiling
        } else {
            end
        },
    }
}

/// A range, as windows that the API will accept.
pub open spec fn windows(series: SeriesView, start: int, end: int) -> Seq<FetchView> {
    Seq::new(
        window_count(end - start, time::seconds(series.scale.ceiling_seconds())),
        |k: int| window(series, start, end, k),
    )
}

/// The work for one channel at one scale.
pub open spec fn job(channel: Channel, mark: Watermark, scale: Scale, h: Horizon) -> Seq<
    FetchView,
> {
    windows(series_of(channel, scale), resumption(mark, scale, h), h.now@)
}

/// The work at one scale, channel by channel.
pub open spec fn lane(
    channels: Seq<Channel>,
    marks: Seq<Watermark>,
    scale: Scale,
    h: Horizon,
) -> Seq<FetchView>
    decreases channels.len(),
{
    if channels.len() == 0 {
        seq![]
    } else {
        lane(channels.drop_last(), marks.drop_last(), scale, h) + job(
            channels.last(),
            marks.last(),
            scale,
            h,
        )
    }
}

/// The whole work list, given the watermark of each channel at each scale:
/// scale by scale, minutes first, and within a scale in the order of the channels.
pub open spec fn planned(
    channels: Seq<Channel>,
    marks: Seq<Seq<Watermark>>,
    h: Horizon,
) -> Seq<FetchView> {
    lane(channels, marks[0], Scale::Minute, h) + lane(channels, marks[1], Scale::QuarterHour, h)
        + lane(channels, marks[2], Scale::Hour, h) + lane(channels, marks[3], Scale::Day, h)
}

/// One watermark for each channel at each scale.
pub open spec fn marks_fit(channels: Seq<Channel>, marks: Seq<Seq<Watermark>>) -> bool {
    marks.len() == 4 && forall|s: int| 0 <= s < 4 ==> (#[trigger] marks[s]).len() == channels.len()
}

proof fn lemma_windows_step(series: SeriesView, start: int, end: int, n: nat, cursor: int)
    requires
        start < end,
        cursor == start + n * time::seconds(series.scale.ceiling_seconds()),
        cursor < end,
    ensures
        n < windows(series, start, end).len(),
        windows(series, start, end)[n as int] == (FetchView {
            series,
            start: cursor,
            end: if end - cursor > time::seconds(series.scale.ceiling_seconds()) {
                cursor + time::seconds(series.scale.ceiling_seconds())
            } else {
                end
            },
        }),
        end - cursor <= time::seconds(series.scale.ceiling_seconds()) ==> windows(
            series,
            start,
            end,
        ).len() == n + 1,
{
    let c = time::seconds(series.scale.ceiling_seconds());
    let span = end - start;
    assert(n <= (span - 1) / c) by (nonlinear_arith)
        requires
            n * c <= span - 1,
            c > 0,
    ;
    assert((n + 1) * c == n * c + c) by (nonlinear_arith);
    if span - n * c <= c {
        assert((span - 1) / c <= n) by (nonlinear_arith)
            requires
                span - n * c <= c,
                c > 0,
        ;
    }
}

/// Splits a range into windows the API will accept: the ceiling is exact, so
/// the last window is short rather than the first being long.
fn chunks(series: &Series, start: Instant, end: Instant, scale: Scale) -> (out: Vec<Fetch>)
    requires
        start.valid(),
        end.valid(),
        scale == series.scale,
    ensures
        views(out@) == windows(series@, start@, end@),
        forall|i: int| 0 <= i < out.len() ==> (#[trigger] out[i]).start.valid() && out[i].end.valid(),
{
    let mut out: Vec<Fetch> = Vec::new();
    let ceiling = scale.ceiling();
    let mut cursor = start;
    let ghost whole = windows(series@, start@, end@);
    proof {
        if start@ >= end@ {
            assert(views(out@) =~= whole);
        }
        assert(0 * ceiling@ == 0) by (nonlinear_arith);
    }
    while cursor.nanos < end.nanos
        invariant
            start.valid(),
            end.valid(),
            start@ < end@ ==> start@ <= cursor@ <= end@,
            start@ >= end@ ==> views(out@) == whole,
            scale == series.scale,
            ceiling@ == time::seconds(scale.ceiling_seconds()),
            whole == windows(series@, start@, end@),
            out.len() <= whole.len(),
            forall|i: int| 0 <= i < out.len() ==> #[trigger] out[i]@ == whole[i],
            forall|i: int|
                0 <= i < out.len() ==> (#[trigger] out[i]).start.valid() && out[i].end.valid(),
            cursor@ < end@ ==> cursor@ == start@ + out.len() * ceiling@,
            start@ < end@ && cursor@ == end@ ==> out.len() == whole.len(),
            start@ >= end@ ==> cursor@ == start@,
        decreases end@ - cursor@,
    {
        proof {
            lemma_windows_step(series@, start@, end@, out.len() as nat, cursor@);
            assert((out.len() + 1) * ceiling@ == out.len() * ceiling@ + ceiling@)
                by (nonlinear_arith);
        }
        let stop = if end.nanos - cursor.nanos > ceiling.nanos {
            cursor.plus(ceiling)
        } else {
            end
        };
        out.push(Fetch { series: series.clone(), start: cursor, end: stop });
        cursor = stop;
    }
    assert(views(out@) =~= whole);
    out
}

/// One step of overlap when resuming. Asking again for one point that is held
/// is free; an off-by-one the other way is a hole that nothing goes back for.
fn resume_from(newest: Instant, scale: Scale) -> (t: Instant)
    requires
        time::representable(newest@ - time::seconds(scale.step_seconds())),
    ensures
        t@ == newest@ - time::seconds(scale.step_seconds()),
{
    newest.minus(scale.step())
}

/// The earliest instant worth asking a scale for.
fn floor(scale: Scale, h: &Horizon) -> (t: Instant)
    requires
        h.valid(),
        scale.retained_days() matches Some(kept) ==> time::representable(
            h.now@ - time::days(kept),
        ),
    ensures
        t@ == earliest(scale, *h),
        t.valid(),
{
    match scale.retained() {
        Some(window) => {
            let rolling = h.now.minus(window);
            if rolling.nanos > h.account_created.nanos {
                rolling
            } else {
                h.account_created
            }
        },
        None => h.account_created,
    }
}

/// Whether a series is one that the channels call for.
pub open spec fn asked(channels: Seq<Channel>, s: SeriesView) -> bool {
    exists|c: int| 0 <= c < channels.len() && s == #[trigger] series_of(channels[c], s.scale)
}

/// Whether a watermark can be taken up one point before its newest instant.
pub open spec fn mark_fits(w: Watermark, scale: Scale) -> bool {
    w.newest matches Some(newest) ==> newest.valid() && time::representable(
        newest@ - time::seconds(scale.step_seconds()),
    )
}

/// Whether a watermark is what a function may answer for a series.
pub open spec fn answers<F: Fn(&Series) -> Watermark>(f: F, s: SeriesView, w: Watermark) -> bool {
    exists|x: Series| x@ == s && #[trigger] call_ensures(f, (&x,), w)
}

/// Whether watermarks are what a function answered, each for its own series.
pub open spec fn answered<F: Fn(&Series) -> Watermark>(
    f: F,
    channels: Seq<Channel>,
    scale: Scale,
    marks: Seq<Watermark>,
) -> bool {
    &&& marks.len() == channels.len()
    &&& forall|c: int|
        0 <= c < channels.len() ==> answers(f, series_of(channels[c], scale), #[trigger] marks[c])
}

/// The work at one scale.
fn plan_scale<F: Fn(&Series) -> Watermark>(
    channels: &[Channel],
    watermarks: &F,
    h: &Horizon,
    scale: Scale,
    out: &mut Vec<Fetch>,
) -> (marks: Ghost<Seq<Watermark>>)
    requires
        h.valid(),
        channels@.len() > 0 ==> (scale.retained_days() matches Some(kept) ==> time::representable(
            h.now@ - time::days(kept),
        )),
        forall|s: Series| asked(channels@, s@) ==> #[trigger] call_requires(*watermarks, (&s,)),
        forall|s: Series, w: Watermark|
            asked(channels@, s@) && #[trigger] call_ensures(*watermarks, (&s,), w) ==> mark_fits(
                w,
                s.scale,
            ),
        forall|i: int|
            0 <= i < old(out).len() ==> (#[trigger] old(out)[i]).start.valid()
                && old(out)[i].end.valid(),
    ensures
        answered(*watermarks, channels@, scale, marks@),
        views(final(out)@) == views(old(out)@) + lane(channels@, marks@, scale, *h),
        forall|i: int|
            0 <= i < final(out).len() ==> (#[trigger] final(out)[i]).start.valid()
                && final(out)[i].end.valid(),
{
    let ghost before = out@;
    let ghost mut marks: Seq<Watermark> = seq![];
    let mut i: usize = 0;
    assert(views(out@) =~= views(before) + lane(channels@.take(0), marks, scale, *h));
    while i < channels.len()
        invariant
            i <= channels.len(),
            h.valid(),
            channels@.len() > 0 ==> (scale.retained_days() matches Some(kept)
                ==> time::representable(h.now@ - time::days(kept))),
            forall|s: Series|
                asked(channels@, s@) ==> #[trigger] call_requires(*watermarks, (&s,)),
            forall|s: Series, w: Watermark|
                asked(channels@, s@) && #[trigger] call_ensures(*watermarks, (&s,), w)
                    ==> mark_fits(w, s.scale),
            answered(*watermarks, channels@.take(i as int), scale, marks),
            views(out@) == views(before) + lane(channels@.take(i as int), marks, scale, *h),
            forall|i: int|
                0 <= i < out.len() ==> (#[trigger] out[i]).start.valid() && out[i].end.valid(),
        decreases channels.len() - i,
    {
        let channel = &channels[i];
        let series = Series {
            device_gid: channel.device_gid,
            channel_num: channel.channel_num.clone(),
            scale,
        };
        assert(series@ == series_of(channels@[i as int], series@.scale));
        let mark = watermarks(&series);
        let start = match mark.newest {
            Some(newest) => {
                let resumed = resume_from(newest, scale);
                let f = floor(scale, h);
                // Older than the cloud keeps is a gap that can no longer be
                // filled: the hole stays a hole.
                if resumed.nanos < f.nanos {
                    f
                } else {
                    resumed
                }
            },
            None => floor(scale, h),
        };
        assert(start@ == resumption(mark, scale, *h));
        let ghost work = job(channels@[i as int], mark, scale, *h);
        let ghost held = out@;
        if start.nanos < h.now.nanos {
            let mut part = chunks(&series, start, h.now, scale);
            let ghost piece = part@;
            out.append(&mut part);
            assert(views(held + piece) =~= views(held) + views(piece));
        } else {
            assert(views(held) =~= views(held) + work);
        }
        proof {
            let next = channels@.take(i + 1);
            assert(next.drop_last() =~= channels@.take(i as int));
            assert(marks.push(mark).drop_last() =~= marks);
            assert(views(out@) == views(held) + work);
            assert(views(before) + lane(channels@.take(i as int), marks, scale, *h) + work
                =~= views(before) + (lane(channels@.take(i as int), marks, scale, *h) + work));
            assert(call_ensures(*watermarks, (&series,), mark));
            assert(answers(*watermarks, series_of(next[i as int], scale), mark));
            assert forall|c: int| 0 <= c < next.len() implies answers(
                *watermarks,
                series_of(next[c], scale),
                #[trigger] marks.push(mark)[c],
            ) by {
                if c < i {
                    assert(next[c] == channels@.take(i as int)[c]);
                    assert(marks.push(mark)[c] == marks[c]);
                }
            }
            marks = marks.push(mark);
        }
        i = i + 1;
    }
    assert(channels@.take(channels@.len() as int) =~= channels@);
    Ghost(marks)
}

/// Whether watermarks are what a function answered for every channel at every scale.
pub open spec fn all_answered<F: Fn(&Series) -> Watermark>(
    f: F,
    channels: Seq<Channel>,
    marks: Seq<Seq<Watermark>>,
) -> bool {
    &&& marks.len() == 4
    &&& answered(f, channels, Scale::Minute, marks[0])
    &&& answered(f, channels, Scale::QuarterHour, marks[1])
    &&& answered(f, channels, Scale::Hour, marks[2])
    &&& answered(f, channels, Scale::Day, marks[3])
}

/// Builds the work list: for each scale, minutes first, and each channel, the
/// windows from where the store leaves off to now.
///
/// The order is not cosmetic. Minute data is the perishable half, so on a first
/// run it lands before history that will still be there tomorrow.
pub fn plan<F: Fn(&Series) -> Watermark>(
    channels: &[Channel],
    watermarks: &F,
    h: &Horizon,
) -> (out: Vec<Fetch>)
    requires
        h.valid(),
        channels@.len() > 0 ==> time::representable(h.now@ - time::days(360)),
        forall|s: Series| asked(channels@, s@) ==> #[trigger] call_requires(*watermarks, (&s,)),
        forall|s: Series, w: Watermark|
            asked(channels@, s@) && #[trigger] call_ensures(*watermarks, (&s,), w) ==> mark_fits(
                w,
                s.scale,
            ),
    ensures
        exists|marks: Seq<Seq<Watermark>>| #[trigger]
            all_answered(*watermarks, channels@, marks) && views(out@) == planned(
                channels@,
                marks,
                *h,
            ),
        forall|i: int| 0 <= i < out.len() ==> (#[trigger] out[i]).start.valid() && out[i].end.valid(),
{
    let mut out: Vec<Fetch> = Vec::new();
    let m0 = plan_scale(channels, watermarks, h, Scale::Minute, &mut out);
    let m1 = plan_scale(channels, watermarks, h, Scale::QuarterHour, &mut out);
    let m2 = plan_scale(channels, watermarks, h, Scale::Hour, &mut out);
    let m3 = plan_scale(channels, watermarks, h, Scale::Day, &mut out);
    proof {
        let marks = seq![m0@, m1@, m2@, m3@];
        assert(all_answered(*watermarks, channels@, marks));
        assert(views(out@) =~= planned(channels@, marks, *h));
    }
    out
}

/// A step's length taken so many times, in nanoseconds.
fn steps(index: usize, scale: Scale) -> (n: i128)
    ensures
        n == time::seconds(scale.step_seconds() * index),
        0 <= n <= 0x0001_0000_0000_0000_0000_0000_0000_0000,
{
    let step = scale.step();
    assert(step@ * index == time::seconds(scale.step_seconds() * index)) by (nonlinear_arith)
        requires
            step@ == time::seconds(scale.step_seconds()),
    ;
    assert(0 <= step@ * index <= step@ * 0xffff_ffff_ffff_ffff) by (nonlinear_arith)
        requires
            0 < step@,
            0 <= index <= 0xffff_ffff_ffff_ffff,
    ;
    step.nanos * index as i128
}

/// Whether the instant that a point at `index` covers can be represented.
pub fn instant_fits(first: Instant, index: usize, scale: Scale) -> (r: bool)
    requires
        first.valid(),
    ensures
        r == time::representable(first@ + time::seconds(scale.step_seconds() * index)),
{
    Instant { nanos: first.nanos + steps(index, scale) }.in_range()
}

/// The instant that a point at `index` covers, given the instant of the first.
pub fn instant_at(first: Instant, index: usize, scale: Scale) -> (t: Instant)
    requires
        first.valid(),
        time::representable(first@ + time::seconds(scale.step_seconds() * index)),
    ensures
        t@ == first@ + time::seconds(scale.step_seconds() * index),
        t.valid(),
{
    first.plus(Duration { nanos: steps(index, scale) })
}

proof fn lemma_window_bounds(series: SeriesView, start: int, end: int, k: int)
    requires
        0 <= k < windows(series, start, end).len(),
    ensures
        ({
            let w = windows(series, start, end);
            let c = time::seconds(series.scale.ceiling_seconds());
            &&& w[k] == window(series, start, end, k)
            &&& start <= w[k].start < w[k].end <= end
            &&& w[k].end - w[k].start <= c
            &&& k + 1 < w.len() ==> w[k].end == w[k + 1].start && w[k].end - w[k].start == c
            &&& k + 1 == w.len() ==> w[k].end == end
            &&& w[0].start == start
        }),
{
    let c = time::seconds(series.scale.ceiling_seconds());
    let span = end - start;
    let n = windows(series, start, end).len();
    assert(span > 0);
    assert(n == (span - 1) / c + 1);
    assert(0 * c == 0);
    assert(0 <= k * c <= span - 1) by (nonlinear_arith)
        requires
            0 <= k <= (span - 1) / c,
            c > 0,
            span > 0,
    ;
    assert((k + 1) * c == k * c + c) by (nonlinear_arith);
    if k + 1 < n {
        assert((k + 1) * c <= span - 1) by (nonlinear_arith)
            requires
                k + 1 <= (span - 1) / c,
                c > 0,
        ;
    } else {
        assert((k + 1) * c >= span) by (nonlinear_arith)
            requires
                k == (span - 1) / c,
                c > 0,
        ;
    }
}

/// No window is longer than the ceiling of its scale, none is empty, and all
/// but the last are exactly at the ceiling.
pub proof fn law_no_window_exceeds_the_ceiling(series: SeriesView, start: int, end: int, k: int)
    requires
        0 <= k < windows(series, start, end).len(),
    ensures
        ({
            let w = windows(series, start, end);
            let ceiling = time::seconds(series.scale.ceiling_seconds());
            &&& 0 < w[k].end - w[k].start <= ceiling
            &&& k + 1 < w.len() ==> w[k].end - w[k].start == ceiling
        }),
{
    lemma_window_bounds(series, start, end, k);
}

/// The windows of a range begin at its start, follow one another without a gap
/// or an overlap, and stop at its end.
pub proof fn law_windows_are_contiguous_and_cover_the_range(
    series: SeriesView,
    start: int,
    end: int,
)
    requires
        start < end,
    ensures
        ({
            let w = windows(series, start, end);
            &&& w.len() > 0
            &&& w[0].start == start
            &&& w.last().end == end
            &&& forall|k: int| 0 <= k < w.len() - 1 ==> (#[trigger] w[k]).end == w[k + 1].start
        }),
{
    let w = windows(series, start, end);
    let c = time::seconds(series.scale.ceiling_seconds());
    assert((end - start - 1) / c >= 0) by (nonlinear_arith)
        requires
            end - start - 1 >= 0,
            c > 0,
    ;
    lemma_window_bounds(series, start, end, w.len() - 1);
    assert forall|k: int| 0 <= k < w.len() - 1 implies (#[trigger] w[k]).end == w[k + 1].start by {
        lemma_window_bounds(series, start, end, k);
    }
}

proof fn lemma_windows_ordered(series: SeriesView, start: int, end: int, j: int, k: int)
    requires
        0 <= j < k < windows(series, start, end).len(),
    ensures
        windows(series, start, end)[j].end <= windows(series, start, end)[k].start,
    decreases k - j,
{
    lemma_window_bounds(series, start, end, j);
    if j + 1 < k {
        lemma_windows_ordered(series, start, end, j + 1, k);
        lemma_window_bounds(series, start, end, j + 1);
    }
}

/// Every moment of a range falls within exactly one of its windows.
pub proof fn law_every_moment_is_fetched_once(series: SeriesView, start: int, end: int, t: int)
    requires
        start <= t < end,
    ensures
        exists|k: int|
            0 <= k < windows(series, start, end).len() && (#[trigger] windows(
                series,
                start,
                end,
            )[k]).start <= t < windows(series, start, end)[k].end,
        forall|j: int, k: int|
            0 <= j < windows(series, start, end).len() && 0 <= k < windows(
                series,
                start,
                end,
            ).len() && (#[trigger] windows(series, start, end)[j]).start <= t < windows(
                series,
                start,
                end,
            )[j].end && (#[trigger] windows(series, start, end)[k]).start <= t < windows(
                series,
                start,
                end,
            )[k].end ==> j == k,
{
    let w = windows(series, start, end);
    let c = time::seconds(series.scale.ceiling_seconds());
    let k = (t - start) / c;
    assert(0 <= k && k * c <= t - start < (k + 1) * c) by (nonlinear_arith)
        requires
            k == (t - start) / c,
            c > 0,
            t - start >= 0,
    ;
    assert(k <= (end - start - 1) / c) by (nonlinear_arith)
        requires
            k * c <= end - start - 1,
            c > 0,
    ;
    assert(w[k] == window(series, start, end, k));
    assert forall|j: int, k: int|
        0 <= j < w.len() && 0 <= k < w.len() && (#[trigger] w[j]).start <= t < w[j].end && (
        #[trigger] w[k]).start <= t < w[k].end implies j == k by {
        if j < k {
            lemma_windows_ordered(series, start, end, j, k);
        } else if k < j {
            lemma_windows_ordered(series, start, end, k, j);
        }
    }
}

/// What holds of each request in a plan: it is for an asked series, not empty,
/// within the ceiling, not before the account, and not past now.
pub open spec fn fetch_sound(f: FetchView, channels: Seq<Channel>, h: Horizon) -> bool {
    &&& asked(channels, f.series)
    &&& h.account_created@ <= f.start < f.end <= h.now@
    &&& f.end - f.start <= time::seconds(f.series.scale.ceiling_seconds())
}

proof fn lemma_lane_sound(
    channels: Seq<Channel>,
    marks: Seq<Watermark>,
    scale: Scale,
    h: Horizon,
    i: int,
)
    requires
        marks.len() == channels.len(),
        0 <= i < lane(channels, marks, scale, h).len(),
    ensures
        fetch_sound(lane(channels, marks, scale, h)[i], channels, h),
        lane(channels, marks, scale, h)[i].series.scale == scale,
    decreases channels.len(),
{
    let front = lane(channels.drop_last(), marks.drop_last(), scale, h);
    let work = job(channels.last(), marks.last(), scale, h);
    if i < front.len() {
        lemma_lane_sound(channels.drop_last(), marks.drop_last(), scale, h, i);
        let f = front[i];
        let c = choose|c: int|
            0 <= c < channels.drop_last().len() && f.series == #[trigger] series_of(
                channels.drop_last()[c],
                f.series.scale,
            );
        assert(f.series == series_of(channels[c], f.series.scale));
    } else {
        lemma_window_bounds(
            series_of(channels.last(), scale),
            resumption(marks.last(), scale, h),
            h.now@,
            i - front.len(),
        );
        let f = work[i - front.len()];
        assert(f.series == series_of(channels[channels.len() - 1], f.series.scale));
    }
}

/// Nothing in a plan predates the account, runs past now, is empty or exceeds
/// the ceiling that the API quoted.
pub proof fn law_every_planned_fetch_is_sound(
    channels: Seq<Channel>,
    marks: Seq<Seq<Watermark>>,
    h: Horizon,
)
    requires
        marks_fit(channels, marks),
    ensures
        forall|i: int|
            0 <= i < planned(channels, marks, h).len() ==> fetch_sound(
                #[trigger] planned(channels, marks, h)[i],
                channels,
                h,
            ),
{
    assert forall|i: int| 0 <= i < planned(channels, marks, h).len() implies fetch_sound(
        #[trigger] planned(channels, marks, h)[i],
        channels,
        h,
    ) by {
        lemma_planned_at(channels, marks, h, i);
    }
}

/// Where a request of the plan comes from: the scale ranks by position.
proof fn lemma_planned_at(
    channels: Seq<Channel>,
    marks: Seq<Seq<Watermark>>,
    h: Horizon,
    i: int,
)
    requires
        marks_fit(channels, marks),
        0 <= i < planned(channels, marks, h).len(),
    ensures
        fetch_sound(planned(channels, marks, h)[i], channels, h),
        ({
            let n0 = lane(channels, marks[0], Scale::Minute, h).len();
            let n1 = n0 + lane(channels, marks[1], Scale::QuarterHour, h).len();
            let n2 = n1 + lane(channels, marks[2], Scale::Hour, h).len();
            planned(channels, marks, h)[i].series.scale == (if i < n0 {
                Scale::Minute
            } else if i < n1 {
                Scale::QuarterHour
            } else if i < n2 {
                Scale::Hour
            } else {
                Scale::Day
            })
        }),
{
    let l0 = lane(channels, marks[0], Scale::Minute, h);
    let l1 = lane(channels, marks[1], Scale::QuarterHour, h);
    let l2 = lane(channels, marks[2], Scale::Hour, h);
    let l3 = lane(channels, marks[3], Scale::Day, h);
    let n0 = l0.len() as int;
    let n1 = n0 + l1.len();
    let n2 = n1 + l2.len();
    if i < n0 {
        lemma_lane_sound(channels, marks[0], Scale::Minute, h, i);
        assert(planned(channels, marks, h)[i] == l0[i]);
    } else if i < n1 {
        lemma_lane_sound(channels, marks[1], Scale::QuarterHour, h, i - n0);
        assert(planned(channels, marks, h)[i] == l1[i - n0]);
    } else if i < n2 {
        lemma_lane_sound(channels, marks[2], Scale::Hour, h, i - n1);
        assert(planned(channels, marks, h)[i] == l2[i - n1]);
    } else {
        lemma_lane_sound(channels, marks[3], Scale::Day, h, i - n2);
        assert(planned(channels, marks, h)[i] == l3[i - n2]);
    }
}

/// A plan goes from the finest scale to the coarsest: minutes come before
/// everything else.
pub proof fn law_finer_scales_are_planned_first(
    channels: Seq<Channel>,
    marks: Seq<Seq<Watermark>>,
    h: Horizon,
    i: int,
    j: int,
)
    requires
        marks_fit(channels, marks),
        0 <= i <= j < planned(channels, marks, h).len(),
    ensures
        planned(channels, marks, h)[i].series.scale.rank() <= planned(
            channels,
            marks,
            h,
        )[j].series.scale.rank(),
{
    lemma_planned_at(channels, marks, h, i);
    lemma_planned_at(channels, marks, h, j);
}

/// Whether no channel is listed twice.
pub open spec fn distinct(channels: Seq<Channel>) -> bool {
    forall|a: int, b: int|
        0 <= a < b < channels.len() ==> !((#[trigger] channels[a]).device_gid == (
        #[trigger] channels[b]).device_gid && channels[a].channel_num@ == channels[b].channel_num@)
}

/// The requests of a list that are for one series.
pub open spec fn only(fetches: Seq<FetchView>, s: SeriesView) -> Seq<FetchView> {
    fetches.filter(|f: FetchView| f.series == s)
}

proof fn lemma_only_none(fetches: Seq<FetchView>, s: SeriesView)
    requires
        forall|i: int| 0 <= i < fetches.len() ==> (#[trigger] fetches[i]).series != s,
    ensures
        only(fetches, s) == Seq::<FetchView>::empty(),
    decreases fetches.len(),
{
    reveal(Seq::filter);
    if fetches.len() > 0 {
        assert forall|i: int| 0 <= i < fetches.drop_last().len() implies (
        #[trigger] fetches.drop_last()[i]).series != s by {
            assert(fetches[i].series != s);
        }
        lemma_only_none(fetches.drop_last(), s);
        assert(fetches.last() == fetches[fetches.len() - 1]);
    }
}

proof fn lemma_only_all(fetches: Seq<FetchView>, s: SeriesView)
    requires
        forall|i: int| 0 <= i < fetches.len() ==> (#[trigger] fetches[i]).series == s,
    ensures
        only(fetches, s) == fetches,
    decreases fetches.len(),
{
    reveal(Seq::filter);
    if fetches.len() > 0 {
        assert forall|i: int| 0 <= i < fetches.drop_last().len() implies (
        #[trigger] fetches.drop_last()[i]).series == s by {
            assert(fetches[i].series == s);
        }
        lemma_only_all(fetches.drop_last(), s);
        assert(fetches.last() == fetches[fetches.len() - 1]);
        assert(fetches.drop_last().push(fetches.last()) =~= fetches);
    } else {
        assert(only(fetches, s) =~= fetches);
    }
}

proof fn lemma_only_add(a: Seq<FetchView>, b: Seq<FetchView>, s: SeriesView)
    ensures
        only(a + b, s) == only(a, s) + only(b, s),
{
    Seq::filter_distributes_over_add(a, b, |f: FetchView| f.series == s);
}

proof fn lemma_lane_only(
    channels: Seq<Channel>,
    marks: Seq<Watermark>,
    scale: Scale,
    h: Horizon,
    c: int,
)
    requires
        marks.len() == channels.len(),
        distinct(channels),
        0 <= c < channels.len(),
    ensures
        only(lane(channels, marks, scale, h), series_of(channels[c], scale)) == job(
            channels[c],
            marks[c],
            scale,
            h,
        ),
    decreases channels.len(),
{
    let s = series_of(channels[c], scale);
    let front = lane(channels.drop_last(), marks.drop_last(), scale, h);
    let work = job(channels.last(), marks.last(), scale, h);
    lemma_only_add(front, work, s);
    if c == channels.len() - 1 {
        assert forall|i: int| 0 <= i < front.len() implies (#[trigger] front[i]).series != s by {
            lemma_lane_sound(channels.drop_last(), marks.drop_last(), scale, h, i);
            let f = front[i];
            let b = choose|b: int|
                0 <= b < channels.drop_last().len() && f.series == #[trigger] series_of(
                    channels.drop_last()[b],
                    f.series.scale,
                );
            assert(channels.drop_last()[b] == channels[b]);
        }
        lemma_only_none(front, s);
        lemma_only_all(work, s);
        assert(Seq::<FetchView>::empty() + work =~= work);
    } else {
        assert(distinct(channels.drop_last())) by {
            assert forall|a: int, b: int| 0 <= a < b < channels.drop_last().len() implies !((
            #[trigger] channels.drop_last()[a]).device_gid == (
            #[trigger] channels.drop_last()[b]).device_gid && channels.drop_last()[a].channel_num@
                == channels.drop_last()[b].channel_num@) by {
                assert(channels[a] == channels.drop_last()[a]);
                assert(channels[b] == channels.drop_last()[b]);
            }
        }
        lemma_lane_only(channels.drop_last(), marks.drop_last(), scale, h, c);
        assert(channels.last() == channels[channels.len() - 1]);
        assert(work.len() >= 0);
        lemma_only_none(work, s);
        assert(job(channels[c], marks[c], scale, h) + Seq::<FetchView>::empty() =~= job(
            channels[c],
            marks[c],
            scale,
            h,
        ));
    }
}

proof fn lemma_lane_only_other(
    channels: Seq<Channel>,
    marks: Seq<Watermark>,
    scale: Scale,
    h: Horizon,
    s: SeriesView,
)
    requires
        marks.len() == channels.len(),
        s.scale != scale,
    ensures
        only(lane(channels, marks, scale, h), s) == Seq::<FetchView>::empty(),
{
    let l = lane(channels, marks, scale, h);
    assert forall|i: int| 0 <= i < l.len() implies (#[trigger] l[i]).series != s by {
        lemma_lane_sound(channels, marks, scale, h, i);
    }
    lemma_only_none(l, s);
}

/// Every channel gets every scale: what a plan holds for a series is exactly
/// the windows from where the store leaves off to now, in order.
pub proof fn law_every_channel_gets_every_scale(
    channels: Seq<Channel>,
    marks: Seq<Seq<Watermark>>,
    h: Horizon,
    c: int,
    scale: Scale,
)
    requires
        marks_fit(channels, marks),
        distinct(channels),
        0 <= c < channels.len(),
    ensures
        only(planned(channels, marks, h), series_of(channels[c], scale)) == windows(
            series_of(channels[c], scale),
            resumption(marks[scale.rank()][c], scale, h),
            h.now@,
        ),
{
    let s = series_of(channels[c], scale);
    let l0 = lane(channels, marks[0], Scale::Minute, h);
    let l1 = lane(channels, marks[1], Scale::QuarterHour, h);
    let l2 = lane(channels, marks[2], Scale::Hour, h);
    let l3 = lane(channels, marks[3], Scale::Day, h);
    lemma_only_add(l0, l1, s);
    lemma_only_add(l0 + l1, l2, s);
    lemma_only_add(l0 + l1 + l2, l3, s);
    match scale {
        Scale::Minute => {
            lemma_lane_only(channels, marks[0], scale, h, c);
        },
        Scale::QuarterHour => {
            lemma_lane_only(channels, marks[1], scale, h, c);
        },
        Scale::Hour => {
            lemma_lane_only(channels, marks[2], scale, h, c);
        },
        Scale::Day => {
            lemma_lane_only(channels, marks[3], scale, h, c);
        },
    }
    if scale != Scale::Minute {
        lemma_lane_only_other(channels, marks[0], Scale::Minute, h, s);
    }
    if scale != Scale::QuarterHour {
        lemma_lane_only_other(channels, marks[1], Scale::QuarterHour, h, s);
    }
    if scale != Scale::Hour {
        lemma_lane_only_other(channels, marks[2], Scale::Hour, h, s);
    }
    if scale != Scale::Day {
        lemma_lane_only_other(channels, marks[3], Scale::Day, h, s);
    }
    assert(only(planned(channels, marks, h), s) =~= windows(
        s,
        resumption(marks[scale.rank()][c], scale, h),
        h.now@,
    ));
}

proof fn lemma_resumption_before_now(mark: Watermark, scale: Scale, h: Horizon)
    requires
        h.account_created@ < h.now@,
        mark.newest matches Some(newest) ==> newest@ < h.now@ + time::seconds(scale.step_seconds()),
    ensures
        resumption(mark, scale, h) < h.now@,
{
    match scale {
        Scale::Minute => {},
        Scale::QuarterHour => {},
        Scale::Hour => {},
        Scale::Day => {},
    }
}

/// A series is asked for unless the account itself starts no earlier than now,
/// or the store already holds a point more than a step past now.
pub proof fn law_a_series_behind_now_is_asked_for(
    channel: Channel,
    mark: Watermark,
    scale: Scale,
    h: Horizon,
)
    requires
        h.account_created@ < h.now@,
        mark.newest matches Some(newest) ==> newest@ < h.now@ + time::seconds(scale.step_seconds()),
    ensures
        ({
            let work = job(channel, mark, scale, h);
            &&& work.len() > 0
            &&& work[0].start == resumption(mark, scale, h)
            &&& work.last().end == h.now@
        }),
{
    lemma_resumption_before_now(mark, scale, h);
    law_windows_are_contiguous_and_cover_the_range(
        series_of(channel, scale),
        resumption(mark, scale, h),
        h.now@,
    );
}

/// An empty store is asked for hours and days all the way back to the account,
/// and for finer scales no further than the cloud keeps them.
pub proof fn law_an_empty_store_asks_as_far_back_as_there_is(mark: Watermark, h: Horizon)
    requires
        mark.newest is None,
    ensures
        resumption(mark, Scale::Hour, h) == h.account_created@,
        resumption(mark, Scale::Day, h) == h.account_created@,
        resumption(mark, Scale::Minute, h) >= h.now@ - time::days(6),
        resumption(mark, Scale::QuarterHour, h) >= h.now@ - time::days(360),
        h.account_created@ <= h.now@ - time::days(6) ==> resumption(mark, Scale::Minute, h)
            == h.now@ - time::days(6),
        h.account_created@ >= h.now@ - time::days(360) ==> resumption(mark, Scale::QuarterHour, h)
            == h.account_created@,
{
}

/// Resuming overlaps the newest point held by exactly one step, unless that is
/// older than what is there to be asked for: then it starts at the floor.
pub proof fn law_resuming_overlaps_by_one_point(newest: Instant, scale: Scale, h: Horizon)
    ensures
        ({
            let back = newest@ - time::seconds(scale.step_seconds());
            let start = resumption(Watermark { newest: Some(newest) }, scale, h);
            &&& back >= earliest(scale, h) ==> start == back
            &&& back < earliest(scale, h) ==> start == earliest(scale, h)
        }),
{
}

proof fn lemma_lane_at_now(
    channels: Seq<Channel>,
    marks: Seq<Watermark>,
    scale: Scale,
    h: Horizon,
)
    requires
        marks.len() == channels.len(),
        forall|c: int| 0 <= c < channels.len() ==> (#[trigger] marks[c]).newest == Some(h.now),
    ensures
        lane(channels, marks, scale, h).len() <= channels.len(),
    decreases channels.len(),
{
    if channels.len() > 0 {
        assert forall|c: int| 0 <= c < channels.drop_last().len() implies (
        #[trigger] marks.drop_last()[c]).newest == Some(h.now) by {
            assert(marks[c].newest == Some(h.now));
        }
        lemma_lane_at_now(channels.drop_last(), marks.drop_last(), scale, h);
        let m = marks[marks.len() - 1];
        assert(m.newest == Some(h.now));
        let start = resumption(m, scale, h);
        let c = time::seconds(scale.ceiling_seconds());
        if start < h.now@ {
            assert((h.now@ - start - 1) / c == 0) by (nonlinear_arith)
                requires
                    0 <= h.now@ - start - 1 < c,
            ;
        }
    }
}

/// A store that is up to date is asked for no more than one window per series.
pub proof fn law_a_store_at_now_plans_one_window_per_series(
    channels: Seq<Channel>,
    marks: Seq<Seq<Watermark>>,
    h: Horizon,
)
    requires
        marks_fit(channels, marks),
        forall|s: int, c: int|
            0 <= s < 4 && 0 <= c < channels.len() ==> (#[trigger] marks[s][c]).newest == Some(
                h.now,
            ),
    ensures
        planned(channels, marks, h).len() <= 4 * channels.len(),
{
    lemma_lane_at_now(channels, marks[0], Scale::Minute, h);
    lemma_lane_at_now(channels, marks[1], Scale::QuarterHour, h);
    lemma_lane_at_now(channels, marks[2], Scale::Hour, h);
    lemma_lane_at_now(channels, marks[3], Scale::Day, h);
}

/// For a scale that the cloud keeps without limit, hours and days, a series whose
/// newest reading is held is taken up one step before it, however long ago that
/// is, but not before the account; with nothing held it is taken up at the account.
/// Minutes are taken up no more than six days back, and quarter-hours no more than
/// 360, and all that is kept since the newest reading is asked for.
pub proof fn law_nothing_that_is_kept_is_passed_over(mark: Watermark, h: Horizon)
    ensures
        ({
            let second = 1_000_000_000int;
            let later = |a: int, b: int|
                if a < b {
                    b
                } else {
                    a
                };
            let from = |floor: int, step: int|
                match mark.newest {
                    Some(t) => later(t@ - step * second, floor),
                    None => floor,
                };
            let created = h.account_created@;
            &&& resumption(mark, Scale::Hour, h) == from(created, 3600)
            &&& resumption(mark, Scale::Day, h) == from(created, 86_400)
            &&& resumption(mark, Scale::Minute, h) == from(
                later(created, h.now@ - 6 * 86_400 * second),
                60,
            )
            &&& resumption(mark, Scale::QuarterHour, h) == from(
                later(created, h.now@ - 360 * 86_400 * second),
                900,
            )
        }),
{
}

/// The earliest instant worth asking for is the account's creation for hours and
/// days, and for minutes and quarter-hours the later of that and the edge of what
/// the cloud keeps.
pub proof fn law_how_far_back_there_is_anything(h: Horizon)
    ensures
        earliest(Scale::Hour, h) == h.account_created@,
        earliest(Scale::Day, h) == h.account_created@,
        earliest(Scale::Minute, h) >= h.account_created@,
        earliest(Scale::Minute, h) >= h.now@ - 6 * 86_400 * 1_000_000_000,
        earliest(Scale::Minute, h) == h.account_created@ || earliest(Scale::Minute, h) == h.now@ - 6
            * 86_400 * 1_000_000_000,
        earliest(Scale::QuarterHour, h) >= h.account_created@,
        earliest(Scale::QuarterHour, h) >= h.now@ - 360 * 86_400 * 1_000_000_000,
        earliest(Scale::QuarterHour, h) == h.account_created@ || earliest(Scale::QuarterHour, h)
            == h.now@ - 360 * 86_400 * 1_000_000_000,
{
}

/// Whether requests ask for a range, all of it and nothing else: they begin at its
/// start, each begins where the one before ended and all but the last are as long
/// as the ceiling, and the last ends at its end; of an empty range there is none.
spec fn exactly_covers(
    work: Seq<FetchView>,
    start: int,
    end: int,
    ceiling: int,
) -> bool {
    &&& start >= end ==> work.len() == 0
    &&& start < end ==> work.len() > 0 && work[0].start == start && work[work.len() - 1].end == end
    &&& forall|k: int|
        0 <= k < work.len() ==> 0 < (#[trigger] work[k]).end - work[k].start <= ceiling
            * 1_000_000_000
    &&& forall|j: int, k: int|
        0 <= j && j + 1 == k && k < work.len() ==> (#[trigger] work[j]).end == (
        #[trigger] work[k]).start && work[j].end - work[j].start == ceiling * 1_000_000_000
}

proof fn lemma_windows_exactly_cover(series: SeriesView, start: int, end: int)
    ensures
        exactly_covers(
            windows(series, start, end),
            start,
            end,
            series.scale.ceiling_seconds(),
        ),
{
    let w = windows(series, start, end);
    let ceiling = series.scale.ceiling_seconds();
    if start < end {
        let c = time::seconds(ceiling);
        assert((end - start - 1) / c >= 0) by (nonlinear_arith)
            requires
                end - start - 1 >= 0,
                c > 0,
        ;
        lemma_window_bounds(series, start, end, w.len() - 1);
    }
    assert forall|k: int| 0 <= k < w.len() implies 0 < (#[trigger] w[k]).end - w[k].start
        <= ceiling * 1_000_000_000 by {
        lemma_window_bounds(series, start, end, k);
    }
    assert forall|j: int, k: int| 0 <= j && j + 1 == k && k < w.len() implies (
    #[trigger] w[j]).end == (#[trigger] w[k]).start && w[j].end - w[j].start == ceiling
        * 1_000_000_000 by {
        lemma_window_bounds(series, start, end, j);
    }
}

/// What a plan asks for a channel at a scale is everything from where the store
/// leaves off to now that the cloud still keeps, in windows that the API accepts:
/// minutes of the last six days in windows of 800 minutes, quarter-hours of the
/// last 360 days in windows of 168 hours, and hours and days since the account
/// began in windows of 800 and 12000 hours, each from one point before the newest
/// held.
pub proof fn law_a_plan_covers_what_is_missing(
    channels: Seq<Channel>,
    marks: Seq<Seq<Watermark>>,
    h: Horizon,
    c: int,
    series: SeriesView,
    place: int,
    kept_days: Option<int>,
    step: int,
    ceiling: int,
    floor: int,
    start: int,
)
    requires
        marks.len() == 4,
        forall|s: int| 0 <= s < 4 ==> (#[trigger] marks[s]).len() == channels.len(),
        forall|a: int, b: int|
            0 <= a < b < channels.len() ==> !((#[trigger] channels[a]).device_gid == (
            #[trigger] channels[b]).device_gid && channels[a].channel_num@
                == channels[b].channel_num@),
        0 <= c < channels.len(),
        series.device_gid == channels[c].device_gid,
        series.channel_num == channels[c].channel_num@,
        series.scale == Scale::Minute ==> place == 0 && kept_days == Some(6int) && step == 60
            && ceiling == 800 * 60,
        series.scale == Scale::QuarterHour ==> place == 1 && kept_days == Some(360int) && step
            == 900 && ceiling == 168 * 3600,
        series.scale == Scale::Hour ==> place == 2 && kept_days is None && step == 3600
            && ceiling == 800 * 3600,
        series.scale == Scale::Day ==> place == 3 && kept_days is None && step == 86_400
            && ceiling == 12_000 * 3600,
        floor == (match kept_days {
            Some(n) if h.now@ - n * 86_400 * 1_000_000_000 > h.account_created@ => h.now@ - n
                * 86_400 * 1_000_000_000,
            _ => h.account_created@,
        }),
        start == (match marks[place][c].newest {
            Some(t) if t@ - step * 1_000_000_000 > floor => t@ - step * 1_000_000_000,
            _ => floor,
        }),
    ensures
        ({
            let work = planned(channels, marks, h).filter(|f: FetchView| f.series == series);
            &&& start >= h.now@ ==> work.len() == 0
            &&& start < h.now@ ==> work.len() > 0 && work[0].start == start && work[work.len()
                - 1].end == h.now@
            &&& forall|k: int|
                0 <= k < work.len() ==> 0 < (#[trigger] work[k]).end - work[k].start <= ceiling
                    * 1_000_000_000
            &&& forall|j: int, k: int|
                0 <= j && j + 1 == k && k < work.len() ==> (#[trigger] work[j]).end == (
                #[trigger] work[k]).start && work[j].end - work[j].start == ceiling
                    * 1_000_000_000
        }),
{
    let scale = series.scale;
    assert(series_of(channels[c], scale) == series);
    law_every_channel_gets_every_scale(channels, marks, h, c, scale);
    assert(start == resumption(marks[place][c], scale, h));
    lemma_windows_exactly_cover(series, start, h.now@);
    assert(only(planned(channels, marks, h), series) == planned(channels, marks, h).filter(
        |f: FetchView| f.series == series,
    ));
}

/// A plan asks for nothing but channels that were listed, and for nothing that
/// lies before the account or after now.
pub proof fn law_a_plan_asks_for_listed_channels_only(
    channels: Seq<Channel>,
    marks: Seq<Seq<Watermark>>,
    h: Horizon,
    i: int,
)
    requires
        marks.len() == 4,
        forall|s: int| 0 <= s < 4 ==> (#[trigger] marks[s]).len() == channels.len(),
        0 <= i < planned(channels, marks, h).len(),
    ensures
        ({
            let f = planned(channels, marks, h)[i];
            &&& h.account_created@ <= f.start < f.end <= h.now@
            &&& exists|c: int|
                0 <= c < channels.len() && f.series.device_gid == (
                #[trigger] channels[c]).device_gid && f.series.channel_num
                    == channels[c].channel_num@
        }),
{
    law_every_planned_fetch_is_sound(channels, marks, h);
    let f = planned(channels, marks, h)[i];
    assert(fetch_sound(f, channels, h));
    let c = choose|c: int|
        0 <= c < channels.len() && f.series == #[trigger] series_of(channels[c], f.series.scale);
    assert(channels[c].device_gid == f.series.device_gid);
}

proof fn lemma_lane_keeps_the_order(
    channels: Seq<Channel>,
    marks: Seq<Watermark>,
    scale: Scale,
    h: Horizon,
    i: int,
    j: int,
) -> (places: (int, int))
    requires
        marks.len() == channels.len(),
        0 <= i <= j < lane(channels, marks, scale, h).len(),
    ensures
        0 <= places.0 <= places.1 < channels.len(),
        lane(channels, marks, scale, h)[i].series == series_of(channels[places.0], scale),
        lane(channels, marks, scale, h)[j].series == series_of(channels[places.1], scale),
    decreases channels.len(),
{
    let front = lane(channels.drop_last(), marks.drop_last(), scale, h);
    if j < front.len() {
        lemma_lane_keeps_the_order(channels.drop_last(), marks.drop_last(), scale, h, i, j)
    } else if i < front.len() {
        let p = lemma_lane_keeps_the_order(
            channels.drop_last(),
            marks.drop_last(),
            scale,
            h,
            i,
            i,
        );
        (p.0, channels.len() - 1)
    } else {
        (channels.len() - 1, channels.len() - 1)
    }
}

/// Minutes come first in a plan, then quarter-hours, hours and days, and at one
/// scale the channels come in the order in which they were listed.
pub proof fn law_a_plan_keeps_the_order_of_channels(
    channels: Seq<Channel>,
    marks: Seq<Seq<Watermark>>,
    h: Horizon,
    i: int,
    j: int,
)
    requires
        marks.len() == 4,
        forall|s: int| 0 <= s < 4 ==> (#[trigger] marks[s]).len() == channels.len(),
        0 <= i <= j < planned(channels, marks, h).len(),
    ensures
        ({
            let a = planned(channels, marks, h)[i].series;
            let b = planned(channels, marks, h)[j].series;
            &&& b.scale == Scale::Minute ==> a.scale == Scale::Minute
            &&& b.scale == Scale::QuarterHour ==> a.scale == Scale::Minute || a.scale
                == Scale::QuarterHour
            &&& b.scale == Scale::Hour ==> a.scale != Scale::Day
            &&& a.scale == b.scale ==> exists|c: int, d: int|
                0 <= c <= d < channels.len() && a == (SeriesView {
                    device_gid: (#[trigger] channels[c]).device_gid,
                    channel_num: channels[c].channel_num@,
                    scale: a.scale,
                }) && b == (SeriesView {
                    device_gid: (#[trigger] channels[d]).device_gid,
                    channel_num: channels[d].channel_num@,
                    scale: b.scale,
                })
        }),
{
    let plan = planned(channels, marks, h);
    law_finer_scales_are_planned_first(channels, marks, h, i, j);
    lemma_planned_at(channels, marks, h, i);
    lemma_planned_at(channels, marks, h, j);
    let a = plan[i].series;
    let b = plan[j].series;
    if a.scale == b.scale {
        let l0 = lane(channels, marks[0], Scale::Minute, h);
        let l1 = lane(channels, marks[1], Scale::QuarterHour, h);
        let l2 = lane(channels, marks[2], Scale::Hour, h);
        let l3 = lane(channels, marks[3], Scale::Day, h);
        let n0 = l0.len() as int;
        let n1 = n0 + l1.len();
        let n2 = n1 + l2.len();
        let (c, d) = match a.scale {
            Scale::Minute => {
                assert(plan[i] == l0[i] && plan[j] == l0[j]);
                lemma_lane_keeps_the_order(channels, marks[0], a.scale, h, i, j)
            },
            Scale::QuarterHour => {
                assert(plan[i] == l1[i - n0] && plan[j] == l1[j - n0]);
                lemma_lane_keeps_the_order(channels, marks[1], a.scale, h, i - n0, j - n0)
            },
            Scale::Hour => {
                assert(plan[i] == l2[i - n1] && plan[j] == l2[j - n1]);
                lemma_lane_keeps_the_order(channels, marks[2], a.scale, h, i - n1, j - n1)
            },
            Scale::Day => {
                assert(plan[i] == l3[i - n2] && plan[j] == l3[j - n2]);
                lemma_lane_keeps_the_order(channels, marks[3], a.scale, h, i - n2, j - n2)
            },
        };
        assert(channels[c].device_gid == a.device_gid && channels[d].device_gid == b.device_gid);
    }
}

/// Each mark that a plan is made of is what was answered for its own channel at
/// its own scale.
pub proof fn law_each_mark_is_the_answer_for_its_own_series<F: Fn(&Series) -> Watermark>(
    f: F,
    channels: Seq<Channel>,
    marks: Seq<Seq<Watermark>>,
    c: int,
    scale: Scale,
    place: int,
)
    requires
        all_answered(f, channels, marks),
        0 <= c < channels.len(),
        scale == Scale::Minute ==> place == 0,
        scale == Scale::QuarterHour ==> place == 1,
        scale == Scale::Hour ==> place == 2,
        scale == Scale::Day ==> place == 3,
    ensures
        marks.len() == 4,
        forall|s: int| 0 <= s < 4 ==> (#[trigger] marks[s]).len() == channels.len(),
        exists|x: Series|
            x.device_gid == channels[c].device_gid && x.channel_num@ == channels[c].channel_num@
                && x.scale == scale && #[trigger] call_ensures(f, (&x,), marks[place][c]),
{
    let w = marks[place][c];
    assert(answers(f, series_of(channels[c], scale), w));
    let x = choose|x: Series|
        x@ == series_of(channels[c], scale) && #[trigger] call_ensures(f, (&x,), w);
    assert(x.device_gid == channels[c].device_gid);
}

/// A request is seen as its own series and its own two ends.
pub proof fn law_a_request_is_seen_as_it_is(f: Fetch, fetches: Seq<Fetch>, i: int)
    ensures
        f@.series.device_gid == f.series.device_gid,
        f@.series.channel_num == f.series.channel_num@,
        f@.series.scale == f.series.scale,
        f@.start == f.start.nanos,
        f@.end == f.end.nanos,
        views(fetches).len() == fetches.len(),
        0 <= i < fetches.len() ==> views(fetches)[i] == fetches[i]@,
{
}

/// A plan is made scale by scale, and at each scale channel by channel: one more
/// channel adds its own work to each, and changes nothing of the others.
pub proof fn law_a_plan_is_made_channel_by_channel(
    channels: Seq<Channel>,
    marks: Seq<Seq<Watermark>>,
    h: Horizon,
    held: Seq<Watermark>,
    channel: Channel,
    mark: Watermark,
    scale: Scale,
)
    requires
        marks.len() == 4,
        held.len() == channels.len(),
    ensures
        planned(channels, marks, h) == lane(channels, marks[0], Scale::Minute, h) + lane(
            channels,
            marks[1],
            Scale::QuarterHour,
            h,
        ) + lane(channels, marks[2], Scale::Hour, h) + lane(channels, marks[3], Scale::Day, h),
        lane(Seq::empty(), Seq::empty(), scale, h).len() == 0,
        lane(channels.push(channel), held.push(mark), scale, h) == lane(channels, held, scale, h)
            + lane(seq![channel], seq![mark], scale, h),
{
    assert(channels.push(channel).drop_last() =~= channels);
    assert(held.push(mark).drop_last() =~= held);
    assert(seq![channel].drop_last() =~= Seq::<Channel>::empty());
    assert(seq![mark].drop_last() =~= Seq::<Watermark>::empty());
    let work = job(channel, mark, scale, h);
    assert(lane(Seq::<Channel>::empty(), Seq::<Watermark>::empty(), scale, h) =~= Seq::<
        FetchView,
    >::empty());
    assert(lane(seq![channel], seq![mark], scale, h) =~= work);
}

} // verus!
