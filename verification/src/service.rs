//! What the program decides between its calls to the world: which command it
//! was given, how it is, what a pass does next, and what it says.

use crate::emporia::{self, NamedChannel};
use crate::http::{self, Fault, FaultView};
use crate::json::{self, Json, JsonView};
use crate::plan::{self, Channel, Fetch, FetchView, Horizon, Series, SeriesView, Watermark};
use crate::scale::{Scale, SCALES};
use crate::store::{self, FailureBeat, Health, HealthView, Watermarks};
use crate::text;
use crate::time::{self, Instant};
use vstd::prelude::*;

verus! {

/// What the program was asked to do.
#[derive(Debug, PartialEq, Eq)]
pub enum Command {
    /// Say whether the service is well.
    Health,
    /// Collect once.
    Once,
    /// Collect for good.
    Run,
    /// Answer a question, in words.
    Agent(Vec<String>),
    /// Something else.
    Unknown(String),
}

/// What the program was asked to do, its words as characters.
pub enum CommandView {
    Health,
    Once,
    Run,
    Agent(Seq<Seq<char>>),
    Unknown(Seq<char>),
}

impl View for Command {
    type V = CommandView;

    open spec fn view(&self) -> CommandView {
        match self {
            Command::Health => CommandView::Health,
            Command::Once => CommandView::Once,
            Command::Run => CommandView::Run,
            Command::Agent(words) => CommandView::Agent(text::texts(words@)),
            Command::Unknown(word) => CommandView::Unknown(word@),
        }
    }
}

/// What the first argument asks for; what follows it matters to a question only.
pub open spec fn commanded(args: Seq<Seq<char>>) -> CommandView {
    if args.len() == 0 {
        CommandView::Run
    } else if args[0] == "--health"@ {
        CommandView::Health
    } else if args[0] == "--once"@ {
        CommandView::Once
    } else if args[0] == "agent"@ {
        CommandView::Agent(args.skip(1))
    } else {
        CommandView::Unknown(args[0])
    }
}

/// Reads the program's arguments.
pub fn command(args: &Vec<String>) -> (c: Command)
    ensures
        c@ == commanded(text::texts(args@)),
{
    if args.len() == 0 {
        return Command::Run;
    }
    assert(text::texts(args@)[0] == args@[0]@);
    let first = args[0].as_str();
    if text::same(first, "--health") {
        Command::Health
    } else if text::same(first, "--once") {
        Command::Once
    } else if text::same(first, "agent") {
        let mut words: Vec<String> = Vec::new();
        let mut i: usize = 1;
        while i < args.len()
            invariant
                1 <= i <= args.len(),
                words@ =~= args@.subrange(1, i as int),
            decreases args.len() - i,
        {
            words.push(args[i].clone());
            i = i + 1;
        }
        assert(text::texts(words@) =~= text::texts(args@).skip(1));
        Command::Agent(words)
    } else {
        Command::Unknown(args[0].clone())
    }
}

/// Whether the service is well, and the line that says so.
#[derive(Debug, PartialEq, Eq)]
pub struct Verdict {
    pub healthy: bool,
    pub line: String,
}

/// How old a credential is, in words after a separator, where that is known.
pub open spec fn credential_age(
    separator: Seq<char>,
    signed_in: Option<Instant>,
    now: Instant,
) -> Seq<char> {
    match signed_in {
        Some(t) => separator + "credential "@ + text::signed_digits(time::whole_days(now@ - t@))
            + " days old"@,
        None => ""@,
    }
}

fn credential_words(separator: &str, signed_in: Option<Instant>, now: Instant) -> (s: String)
    requires
        now.valid(),
        signed_in matches Some(t) ==> t.valid(),
    ensures
        s@ == credential_age(separator@, signed_in, now),
{
    match signed_in {
        Some(t) => {
            let mut s = separator.to_owned();
            s.append("credential ");
            s.append(text::signed_decimal(now.since(t).num_days()).as_str());
            s.append(" days old");
            s
        },
        None => "".to_owned(),
    }
}

/// Whether the service is well: not once a sign-in was refused, not when its
/// last success is too long ago, and before its first success it is starting.
pub open spec fn is_healthy(h: HealthView, stale: i64, now: Instant) -> bool {
    h.ok && (h.last_success matches Some(t) ==> time::whole_seconds(now@ - t@) <= stale)
}

/// The line that says whether the service is well.
pub open spec fn health_line(h: HealthView, stale: i64, now: Instant) -> Seq<char> {
    if !h.ok {
        "unhealthy: "@ + match h.last_error {
            Some(e) => e,
            None => "sign-in failed"@,
        }
    } else {
        match h.last_success {
            None => "starting: no pass has completed yet"@,
            Some(t) => {
                let age = time::whole_seconds(now@ - t@);
                if age > stale {
                    "unhealthy: last success was "@ + text::signed_digits(age)
                        + "s ago, limit is "@ + text::signed_digits(stale as int) + "s"@
                } else {
                    "ok: last success "@ + text::signed_digits(age) + "s ago"@ + credential_age(
                        ", "@,
                        h.authenticated_at,
                        now,
                    )
                }
            },
        }
    }
}

/// Decides whether the service is well.
pub fn health(h: &Health, stale: i64, now: Instant) -> (v: Verdict)
    requires
        now.valid(),
        h.last_success matches Some(t) ==> t.valid(),
        h.authenticated_at matches Some(t) ==> t.valid(),
    ensures
        v.healthy == is_healthy(h@, stale, now),
        v.line@ == health_line(h@, stale, now),
{
    if !h.ok {
        let mut line = "unhealthy: ".to_owned();
        match &h.last_error {
            Some(e) => {
                line.append(e.as_str());
            },
            None => {
                line.append("sign-in failed");
            },
        }
        return Verdict { healthy: false, line };
    }
    match h.last_success {
        None => Verdict {
            healthy: true,
            line: "starting: no pass has completed yet".to_owned(),
        },
        Some(t) => {
            let age = now.since(t).num_seconds();
            if age > stale {
                let mut line = "unhealthy: last success was ".to_owned();
                line.append(text::signed_decimal(age).as_str());
                line.append("s ago, limit is ");
                line.append(text::signed_decimal(stale).as_str());
                line.append("s");
                Verdict { healthy: false, line }
            } else {
                let mut line = "ok: last success ".to_owned();
                line.append(text::signed_decimal(age).as_str());
                line.append("s ago");
                line.append(credential_words(", ", h.authenticated_at, now).as_str());
                Verdict { healthy: true, line }
            }
        },
    }
}

/// A service whose sign-in was refused is unwell however recent its last
/// success is.
pub proof fn law_a_refused_sign_in_is_unwell(h: HealthView, stale: i64, now: Instant)
    requires
        !h.ok,
    ensures
        !is_healthy(h, stale, now),
{
}

/// A service that is unwell says so, and one that is well does not.
pub proof fn law_the_line_tells_the_verdict(h: HealthView, stale: i64, now: Instant)
    ensures
        text::begins_with(health_line(h, stale, now), "unhealthy: "@) <==> !is_healthy(
            h,
            stale,
            now,
        ),
{
    let line = health_line(h, stale, now);
    let start = "unhealthy: "@;
    reveal_strlit("unhealthy: ");
    if !h.ok {
        assert(line.take(start.len() as int) =~= start);
    } else if h.last_success is None {
        reveal_strlit("starting: no pass has completed yet");
        assert(line.take(start.len() as int)[0] == 's');
    } else if !is_healthy(h, stale, now) {
        reveal_strlit("unhealthy: last success was ");
        assert(line.take(start.len() as int) =~= start);
    } else {
        reveal_strlit("ok: last success ");
        assert(line[0] == 'o');
        if line.len() >= start.len() {
            assert(line.take(start.len() as int)[0] == 'o');
        }
    }
}

/// After a fatal failure the service is unwell, whatever failures follow it,
/// however recent the last success and whatever the limit.
pub proof fn law_a_fatal_failure_lasts(
    h: HealthView,
    message: Seq<char>,
    at: Instant,
    later: Seq<FailureBeat>,
    stale: i64,
    now: Instant,
)
    ensures
        !is_healthy(
            store::after_failures(
                store::beaten(h, store::failure_query(message, true), at),
                later,
            ),
            stale,
            now,
        ),
{
    store::law_a_failure_is_recorded(h, message, true, at);
    store::law_failures_mend_nothing(
        store::beaten(h, store::failure_query(message, true), at),
        later,
    );
}

/// Failures that are not fatal leave the service as well as it was.
pub proof fn law_other_failures_change_no_verdict(
    h: HealthView,
    failures: Seq<FailureBeat>,
    stale: i64,
    now: Instant,
)
    requires
        forall|i: int| 0 <= i < failures.len() ==> !(#[trigger] failures[i]).fatal,
    ensures
        is_healthy(store::after_failures(h, failures), stale, now) == is_healthy(h, stale, now),
{
    store::law_failures_mend_nothing(h, failures);
}

/// A success makes the service well, whatever went before, for as long as the
/// limit allows.
pub proof fn law_a_success_makes_the_service_well(
    h: HealthView,
    signed_in: Option<Instant>,
    at: Instant,
    stale: i64,
    now: Instant,
)
    ensures
        is_healthy(store::beaten(h, store::success_query(signed_in), at), stale, now)
            <==> time::whole_seconds(now@ - at@) <= stale,
{
    store::law_a_success_is_recorded(h, signed_in, at);
}

/// A reply that says why there is no answer.
pub open spec fn refusal_view(error: Seq<char>, message: Seq<char>) -> JsonView {
    JsonView::Object(
        seq![
            ("ok"@, JsonView::Bool(false)),
            ("error"@, JsonView::Text(error)),
            ("message"@, JsonView::Text(message)),
        ],
    )
}

fn refusal(error: &str, message: &str) -> (j: Json)
    ensures
        j@ == refusal_view(error@, message@),
{
    let mut o = json::no_fields();
    json::put(&mut o, "ok", json::boolean(false));
    json::put(&mut o, "error", json::text(error));
    json::put(&mut o, "message", json::text(message));
    assert(json::fields(o@) =~= refusal_view(error@, message@)->Object_0);
    json::object(o)
}

/// The reply to words that are no request.
pub fn bad_request(why: &str) -> (j: Json)
    ensures
        j@ == refusal_view("bad-request"@, why@),
{
    refusal("bad-request", why)
}

/// The reply where the store could not be read.
pub fn query_failed(why: &str) -> (j: Json)
    ensures
        j@ == refusal_view("query-failed"@, why@),
{
    refusal("query-failed", why)
}

/// Channels as the planner knows them.
pub open spec fn plan_channels(channels: Seq<NamedChannel>) -> Seq<Channel> {
    channels.map_values(
        |c: NamedChannel| Channel { device_gid: c.device_gid, channel_num: c.channel_num },
    )
}

/// What is held of each channel at a scale.
pub open spec fn marks_at(
    channels: Seq<Channel>,
    marks: Map<SeriesView, Watermark>,
    scale: Scale,
) -> Seq<Watermark> {
    channels.map_values(|c: Channel| store::mark_in(marks, plan::series_of(c, scale)))
}

/// The whole work of a pass, from what is held of each series.
pub open spec fn work_of(
    channels: Seq<Channel>,
    marks: Map<SeriesView, Watermark>,
    h: Horizon,
) -> Seq<FetchView> {
    plan::planned(
        channels,
        seq![
            marks_at(channels, marks, Scale::Minute),
            marks_at(channels, marks, Scale::QuarterHour),
            marks_at(channels, marks, Scale::Hour),
            marks_at(channels, marks, Scale::Day),
        ],
        h,
    )
}

/// Whether the work of a pass can be planned: every moment that it looks back
/// to can be represented.
pub open spec fn can_plan(
    channels: Seq<Channel>,
    marks: Map<SeriesView, Watermark>,
    h: Horizon,
) -> bool {
    &&& h.valid()
    &&& channels.len() > 0 ==> time::representable(h.now@ - time::days(360))
    &&& forall|s: SeriesView| #[trigger]
        plan::asked(channels, s) ==> plan::mark_fits(store::mark_in(marks, s), s.scale)
}

/// A pass under way: what it has to fetch, how far it has got, and how many
/// readings it has written.
#[derive(Debug, PartialEq, Eq)]
pub struct Pass {
    pub work: Vec<Fetch>,
    pub next: usize,
    pub written: usize,
}

fn known_channels(channels: &Vec<NamedChannel>) -> (out: Vec<Channel>)
    ensures
        out@ == plan_channels(channels@),
{
    let mut out: Vec<Channel> = Vec::new();
    let mut i: usize = 0;
    while i < channels.len()
        invariant
            i <= channels.len(),
            out@ =~= plan_channels(channels@).take(i as int),
        decreases channels.len() - i,
    {
        out.push(channels[i].as_plan_channel());
        i = i + 1;
    }
    out
}

/// The work of a pass, from what is held of each series.
fn work_from(channels: &Vec<Channel>, marks: &Watermarks, h: &Horizon) -> (work: Vec<Fetch>)
    requires
        can_plan(channels@, marks@, *h),
    ensures
        plan::views(work@) == work_of(channels@, marks@, *h),
        forall|i: int|
            0 <= i < work@.len() ==> (#[trigger] work@[i]).start.valid() && work@[i].end.valid(),
{
    let held = |s: &Series| -> (w: Watermark)
        ensures
            w == store::mark_in(marks@, s@),
    {
        marks.get(s)
    };
    let work = plan::plan(channels.as_slice(), &held, h);
    proof {
        let found = choose|found: Seq<Seq<Watermark>>| #[trigger]
            plan::all_answered(held, channels@, found) && plan::views(work@) == plan::planned(
                channels@,
                found,
                *h,
            );
        assert(found[0] =~= marks_at(channels@, marks@, Scale::Minute));
        assert(found[1] =~= marks_at(channels@, marks@, Scale::QuarterHour));
        assert(found[2] =~= marks_at(channels@, marks@, Scale::Hour));
        assert(found[3] =~= marks_at(channels@, marks@, Scale::Day));
    }
    work
}

/// Whether the work of a pass can be planned: every moment that it looks back
/// to can be represented.
pub fn plannable(channels: &Vec<NamedChannel>, marks: &Watermarks, h: &Horizon) -> (r: bool)
    ensures
        r == can_plan(plan_channels(channels@), marks@, *h),
{
    let ghost known = plan_channels(channels@);
    if !h.account_created.in_range() || !h.now.in_range() {
        return false;
    }
    if channels.len() > 0 && !(Instant { nanos: h.now.nanos - 360 * time::DAY as i128 * time::NANOS
    }).in_range() {
        return false;
    }
    let mut i: usize = 0;
    while i < channels.len()
        invariant
            i <= channels.len(),
            known == plan_channels(channels@),
            forall|c: int, scale: Scale|
                0 <= c < i ==> plan::mark_fits(
                    store::mark_in(marks@, #[trigger] plan::series_of(known[c], scale)),
                    scale,
                ),
        decreases channels.len() - i,
    {
        let mut k: usize = 0;
        while k < 4
            invariant
                k <= 4,
                i < channels.len(),
                known == plan_channels(channels@),
                SCALES@.len() == 4,
                forall|m: int|
                    0 <= m < k ==> plan::mark_fits(
                        store::mark_in(
                            marks@,
                            plan::series_of(known[i as int], #[trigger] SCALES@[m]),
                        ),
                        SCALES@[m],
                    ),
            decreases 4 - k,
        {
            let scale = SCALES[k];
            let series = Series {
                device_gid: channels[i].device_gid,
                channel_num: channels[i].channel_num.clone(),
                scale,
            };
            let mark = marks.get(&series);
            assert(series@ == plan::series_of(known[i as int], scale));
            let good = match mark.newest {
                Some(newest) => newest.in_range() && (Instant {
                    nanos: newest.nanos - scale.step().nanos,
                }).in_range(),
                None => true,
            };
            if !good {
                assert(plan::asked(known, series@));
                return false;
            }
            k = k + 1;
        }
        proof {
            assert forall|c: int, scale: Scale| 0 <= c < i + 1 implies plan::mark_fits(
                store::mark_in(marks@, #[trigger] plan::series_of(known[c], scale)),
                scale,
            ) by {
                if c == i {
                    assert(SCALES@[0] == Scale::Minute && SCALES@[1] == Scale::QuarterHour
                        && SCALES@[2] == Scale::Hour && SCALES@[3] == Scale::Day);
                }
            }
        }
        i = i + 1;
    }
    proof {
        assert forall|s: SeriesView| #[trigger] plan::asked(known, s) implies plan::mark_fits(
            store::mark_in(marks@, s),
            s.scale,
        ) by {
            let c = choose|c: int|
                0 <= c < known.len() && s == #[trigger] plan::series_of(known[c], s.scale);
        }
    }
    true
}

/// An account whose description could not be read.
pub fn unread_account(cause: &str) -> (f: Fault)
    ensures
        f@ == FaultView::Transient("unreadable device list: "@ + cause@),
{
    let mut why = "unreadable device list: ".to_owned();
    why.append(cause);
    Fault::Transient(why)
}

/// How many windows a pass takes before it says so at its start.
pub const LONG_PASS: usize = 200;

/// What came of one fetch.
#[derive(Debug, PartialEq, Eq)]
pub enum Outcome {
    /// The page could not be had.
    Failed(Fault),
    /// The page could not be read.
    Unreadable(String),
    /// Its readings could not be written.
    Unsaved(String),
    /// So many readings were written.
    Saved(usize),
}

/// Whether a fetch ends the pass: only a sign-in that is no longer accepted
/// does.
pub open spec fn ends_pass(o: Outcome) -> bool {
    o matches Outcome::Failed(f) && f is Unauthorised
}

/// How many readings a fetch has written.
pub open spec fn saved(o: Outcome) -> int {
    match o {
        Outcome::Saved(n) => n as int,
        _ => 0,
    }
}

/// What is said of a fetch, where something is.
pub open spec fn fetch_line(series: SeriesView, o: Outcome) -> Option<Seq<char>> {
    match o {
        Outcome::Failed(f) => match f@ {
            FaultView::Unauthorised(_) => None,
            FaultView::Refused { status, message } => Some(
                "dynamo: refused ("@ + text::digits(status as nat) + ") for "@
                    + text::signed_digits(series.device_gid as int) + " "@ + series.channel_num
                    + " "@ + series.scale.name() + ": "@ + message,
            ),
            FaultView::Transient(m) => Some("dynamo: "@ + m),
        },
        Outcome::Unreadable(e) => Some("dynamo: unreadable usage body: "@ + e@),
        Outcome::Unsaved(e) => Some("dynamo: "@ + e@),
        Outcome::Saved(_) => None,
    }
}

impl Pass {
    /// A pass that has fetches left, or has just made its last.
    pub open spec fn valid(self) -> bool {
        &&& self.next <= self.work@.len()
        &&& forall|i: int|
            0 <= i < self.work@.len() ==> (#[trigger] self.work@[i]).start.valid()
                && self.work@[i].end.valid()
    }

    /// Plans a pass.
    pub fn begin(channels: &Vec<NamedChannel>, marks: &Watermarks, h: &Horizon) -> (p: Pass)
        requires
            can_plan(plan_channels(channels@), marks@, *h),
        ensures
            plan::views(p.work@) == work_of(plan_channels(channels@), marks@, *h),
            p.next == 0,
            p.written == 0,
            p.valid(),
    {
        let known = known_channels(channels);
        Pass { work: work_from(&known, marks, h), next: 0, written: 0 }
    }

    /// What is said of a pass at its start, where it is a long one: a first run
    /// or the end of a long outage.
    pub fn announcement(&self, channels: usize) -> (r: Option<String>)
        ensures
            r is Some <==> self.work@.len() > LONG_PASS,
            r matches Some(s) ==> s@ == "backfilling: "@ + text::digits(self.work@.len())
                + " windows across "@ + text::digits(channels as nat) + " channels"@,
    {
        if self.work.len() <= LONG_PASS {
            return None;
        }
        let mut s = "backfilling: ".to_owned();
        s.append(text::decimal(self.work.len() as u64).as_str());
        s.append(" windows across ");
        s.append(text::decimal(channels as u64).as_str());
        s.append(" channels");
        Some(s)
    }

    /// The URL of the next fetch, while there is one.
    pub fn url(&self) -> (r: Option<String>)
        requires
            self.valid(),
        ensures
            r is Some <==> self.next < self.work@.len(),
            r matches Some(s) ==> s@ == emporia::chart_text(self.work@[self.next as int]),
    {
        if self.next < self.work.len() {
            Some(emporia::chart_url(&self.work[self.next]))
        } else {
            None
        }
    }

    /// Takes in what came of the next fetch: the pass ends, or goes on to the
    /// one after it with something to say or nothing.
    pub fn take(&mut self, outcome: Outcome) -> (r: Result<Option<String>, Fault>)
        requires
            old(self).valid(),
            old(self).next < old(self).work@.len(),
            old(self).written + saved(outcome) <= usize::MAX,
        ensures
            final(self).valid(),
            final(self).work == old(self).work,
            ends_pass(outcome) ==> *final(self) == *old(self) && (r matches Err(f)
                && outcome == Outcome::Failed(f)),
            !ends_pass(outcome) ==> {
                &&& final(self).next == old(self).next + 1
                &&& final(self).written == old(self).written + saved(outcome)
                &&& r matches Ok(line)
                &&& text::view_of(line) == fetch_line(
                    old(self).work@[old(self).next as int].series@,
                    outcome,
                )
            },
    {
        let line = match outcome {
            Outcome::Failed(Fault::Unauthorised(m)) => {
                return Err(Fault::Unauthorised(m));
            },
            Outcome::Failed(Fault::Refused { status, message }) => {
                let series = &self.work[self.next].series;
                let mut s = "dynamo: refused (".to_owned();
                s.append(text::decimal(status as u64).as_str());
                s.append(") for ");
                s.append(text::signed_decimal(series.device_gid).as_str());
                s.append(" ");
                s.append(series.channel_num.as_str());
                s.append(" ");
                s.append(series.scale.api_name());
                s.append(": ");
                s.append(message.as_str());
                Some(s)
            },
            Outcome::Failed(Fault::Transient(m)) => {
                let mut s = "dynamo: ".to_owned();
                s.append(m.as_str());
                Some(s)
            },
            Outcome::Unreadable(e) => {
                let mut s = "dynamo: unreadable usage body: ".to_owned();
                s.append(e.as_str());
                Some(s)
            },
            Outcome::Unsaved(e) => {
                let mut s = "dynamo: ".to_owned();
                s.append(e.as_str());
                Some(s)
            },
            Outcome::Saved(n) => {
                self.written = self.written + n;
                None
            },
        };
        assert(self.next < self.work.len());
        self.next = self.next + 1;
        Ok(line)
    }
}

/// How many readings fetches have written together.
pub open spec fn total_saved(outcomes: Seq<Outcome>) -> int
    decreases outcomes.len(),
{
    if outcomes.len() == 0 {
        0
    } else {
        total_saved(outcomes.drop_last()) + saved(outcomes.last())
    }
}

/// How far a pass gets, given what comes of each of its fetches: through all of
/// them, or to the first that ends it.
pub open spec fn fetched(outcomes: Seq<Outcome>) -> int
    decreases outcomes.len(),
{
    if outcomes.len() == 0 {
        0
    } else if ends_pass(outcomes[0]) {
        0
    } else {
        1 + fetched(outcomes.drop_first())
    }
}

/// A pass makes all of its fetches, whatever fails, unless a sign-in is no
/// longer accepted; then it makes none after that one.
pub proof fn law_only_a_refused_sign_in_ends_a_pass(outcomes: Seq<Outcome>)
    ensures
        0 <= fetched(outcomes) <= outcomes.len(),
        forall|i: int| 0 <= i < fetched(outcomes) ==> !ends_pass(#[trigger] outcomes[i]),
        fetched(outcomes) < outcomes.len() ==> ends_pass(outcomes[fetched(outcomes)]),
    decreases outcomes.len(),
{
    if outcomes.len() > 0 && !ends_pass(outcomes[0]) {
        let rest = outcomes.drop_first();
        law_only_a_refused_sign_in_ends_a_pass(rest);
        assert forall|i: int| 0 <= i < fetched(outcomes) implies !ends_pass(
            #[trigger] outcomes[i],
        ) by {
            if i > 0 {
                assert(outcomes[i] == rest[i - 1]);
            }
        }
    }
}

/// One bad fetch does not stop the others: what is written is what the other
/// fetches write.
pub proof fn law_a_failed_fetch_costs_only_itself(
    before: Seq<Outcome>,
    failed: Outcome,
    after: Seq<Outcome>,
)
    requires
        !ends_pass(failed),
        saved(failed) == 0,
    ensures
        total_saved(before + seq![failed] + after) == total_saved(before + after),
        fetched(before + seq![failed] + after) == fetched(before + after) + (if fetched(before)
            < before.len() {
            0int
        } else {
            1int
        }),
{
    lemma_saved_failure(before, failed, after);
    lemma_fetched_failure(before, failed, after);
}

proof fn lemma_saved_failure(before: Seq<Outcome>, failed: Outcome, after: Seq<Outcome>)
    requires
        saved(failed) == 0,
    ensures
        total_saved(before + seq![failed] + after) == total_saved(before + after),
    decreases after.len(),
{
    let with = before + seq![failed] + after;
    let without = before + after;
    if after.len() == 0 {
        assert(with.drop_last() =~= before);
        assert(without =~= before);
    } else {
        assert(with.drop_last() =~= before + seq![failed] + after.drop_last());
        assert(without.drop_last() =~= before + after.drop_last());
        lemma_saved_failure(before, failed, after.drop_last());
    }
}

proof fn lemma_fetched_failure(before: Seq<Outcome>, failed: Outcome, after: Seq<Outcome>)
    requires
        !ends_pass(failed),
    ensures
        fetched(before + seq![failed] + after) == fetched(before + after) + (if fetched(before)
            < before.len() {
            0int
        } else {
            1int
        }),
    decreases before.len(),
{
    let with = before + seq![failed] + after;
    let without = before + after;
    if before.len() == 0 {
        assert(with.drop_first() =~= after);
        assert(without =~= after);
    } else {
        assert(with.drop_first() =~= before.drop_first() + seq![failed] + after);
        assert(without.drop_first() =~= before.drop_first() + after);
        lemma_fetched_failure(before.drop_first(), failed, after);
    }
}

/// When the credential was signed in, where a session knows it and it can be
/// represented.
pub fn signed_in_at(authenticated_at: Option<i64>) -> (t: Option<Instant>)
    ensures
        t is Some <==> (authenticated_at matches Some(secs) && time::MIN_SECONDS <= secs
            <= time::MAX_SECONDS),
        t matches Some(t) ==> t@ == time::seconds(authenticated_at->0 as int) && t.valid(),
{
    match authenticated_at {
        Some(secs) => Instant::at(secs, 0),
        None => None,
    }
}

/// How many readings of each scale are held, in words.
pub open spec fn holding(held: Seq<(Scale, i64)>) -> Seq<char>
    decreases held.len(),
{
    if held.len() == 0 {
        ""@
    } else if held.len() == 1 {
        held[0].0.name() + " "@ + text::signed_digits(held[0].1 as int)
    } else {
        holding(held.drop_last()) + ", "@ + held.last().0.name() + " "@ + text::signed_digits(
            held.last().1 as int,
        )
    }
}

/// What is said of a pass that is complete.
pub open spec fn pass_line(
    written: nat,
    held: Seq<(Scale, i64)>,
    signed_in: Option<Instant>,
    now: Instant,
) -> Seq<char> {
    "pass complete: "@ + text::digits(written) + " readings written; holding "@ + holding(held)
        + credential_age("; "@, signed_in, now)
}

fn holding_words(held: &Vec<(Scale, i64)>) -> (s: String)
    ensures
        s@ == holding(held@),
{
    let mut s = "".to_owned();
    let mut i: usize = 0;
    while i < held.len()
        invariant
            i <= held.len(),
            s@ == holding(held@.take(i as int)),
        decreases held.len() - i,
    {
        assert(held@.take(i + 1).drop_last() =~= held@.take(i as int));
        if i == 0 {
            s = held[i].0.api_name().to_owned();
        } else {
            s.append(", ");
            s.append(held[i].0.api_name());
        }
        s.append(" ");
        s.append(text::signed_decimal(held[i].1).as_str());
        i = i + 1;
    }
    assert(held@.take(held@.len() as int) =~= held@);
    s
}

/// What is said of a pass that is complete: what it wrote, what is held, and
/// how old the credential is.
pub fn completed(
    written: usize,
    held: &Vec<(Scale, i64)>,
    signed_in: Option<Instant>,
    now: Instant,
) -> (s: String)
    requires
        now.valid(),
        signed_in matches Some(t) ==> t.valid(),
    ensures
        s@ == pass_line(written as nat, held@, signed_in, now),
{
    let mut s = "pass complete: ".to_owned();
    s.append(text::decimal(written as u64).as_str());
    s.append(" readings written; holding ");
    s.append(holding_words(held).as_str());
    s.append(credential_words("; ", signed_in, now).as_str());
    s
}

/// What follows a pass that failed: what is said, what is recorded, and whether
/// it is the end.
#[derive(Debug, PartialEq, Eq)]
pub struct Failure {
    pub lines: Vec<String>,
    pub message: String,
    pub fatal: bool,
}

/// What is said of a pass that failed.
pub open spec fn failure_lines(f: FaultView) -> Seq<Seq<char>> {
    match f {
        FaultView::Unauthorised(m) => seq![
            "dynamo: "@ + m,
            "dynamo: DYNAMO_REFRESH_TOKEN is no longer accepted. See README.md,"@,
            "dynamo: 'Re-seeding the refresh token'. Nothing will be collected"@,
            "dynamo: until it is replaced."@,
        ],
        _ => seq!["dynamo: pass failed: "@ + http::fault_text(f)],
    }
}

/// Whether a failure is the end: a person has to act before anything is collected.
pub open spec fn is_fatal(f: FaultView) -> bool {
    f is Unauthorised
}

/// Decides what follows a pass that failed. A sign-in that is no longer
/// accepted is the end: a person has to replace the token. Anything else is
/// tried again.
pub fn failed(f: &Fault) -> (r: Failure)
    ensures
        text::texts(r.lines@) == failure_lines(f@),
        r.message@ == http::fault_text(f@),
        r.fatal <==> f is Unauthorised,
        r.fatal == is_fatal(f@),
{
    let mut lines: Vec<String> = Vec::new();
    let message = f.text();
    match f {
        Fault::Unauthorised(m) => {
            let mut first = "dynamo: ".to_owned();
            first.append(m.as_str());
            lines.push(first);
            lines.push(
                "dynamo: DYNAMO_REFRESH_TOKEN is no longer accepted. See README.md,".to_owned(),
            );
            lines.push(
                "dynamo: 'Re-seeding the refresh token'. Nothing will be collected".to_owned(),
            );
            lines.push("dynamo: until it is replaced.".to_owned());
            assert(text::texts(lines@) =~= failure_lines(f@));
            Failure { lines, message, fatal: true }
        },
        _ => {
            let mut line = "dynamo: pass failed: ".to_owned();
            line.append(message.as_str());
            lines.push(line);
            assert(text::texts(lines@) =~= failure_lines(f@));
            Failure { lines, message, fatal: false }
        },
    }
}

/// What the program does after a pass.
#[derive(Copy, Clone, Debug, PartialEq, Eq, Structural)]
pub enum After {
    /// It ends, well or not.
    Exit { success: bool },
    /// It waits so many seconds and makes another pass.
    Wait { seconds: u64 },
}

/// What the program does after a pass.
pub open spec fn followed(fatal: bool, once: bool, interval_secs: u64) -> After {
    if fatal {
        After::Exit { success: false }
    } else if once {
        After::Exit { success: true }
    } else {
        After::Wait { seconds: interval_secs }
    }
}

/// Decides what the program does after a pass.
pub fn after_pass(fatal: bool, once: bool, interval_secs: u64) -> (a: After)
    ensures
        a == followed(fatal, once, interval_secs),
        a == (if fatal {
            After::Exit { success: false }
        } else if once {
            After::Exit { success: true }
        } else {
            After::Wait { seconds: interval_secs }
        }),
{
    if fatal {
        After::Exit { success: false }
    } else if once {
        After::Exit { success: true }
    } else {
        After::Wait { seconds: interval_secs }
    }
}

/// How far a pass is after so many outcomes, and what it has written.
pub open spec fn progress(outcomes: Seq<Outcome>) -> (int, int) {
    (fetched(outcomes), total_saved(outcomes.take(fetched(outcomes))))
}

/// One more outcome takes a pass that has not ended one fetch further, with what
/// that fetch wrote, or ends it where it is.
pub proof fn law_a_pass_advances_by_one_fetch(outcomes: Seq<Outcome>, o: Outcome)
    requires
        fetched(outcomes) == outcomes.len(),
    ensures
        progress(outcomes.push(o)) == (if ends_pass(o) {
            progress(outcomes)
        } else {
            (progress(outcomes).0 + 1, progress(outcomes).1 + saved(o))
        }),
{
    lemma_fetched_push(outcomes, o);
    let n = outcomes.len() as int;
    assert(outcomes.take(n) =~= outcomes);
    if ends_pass(o) {
        assert(outcomes.push(o).take(n) =~= outcomes);
    } else {
        assert(outcomes.push(o).take(n + 1) =~= outcomes.push(o));
        assert(outcomes.push(o).drop_last() =~= outcomes);
    }
}

proof fn lemma_fetched_push(outcomes: Seq<Outcome>, o: Outcome)
    requires
        fetched(outcomes) == outcomes.len(),
    ensures
        fetched(outcomes.push(o)) == outcomes.len() + (if ends_pass(o) {
            0int
        } else {
            1int
        }),
    decreases outcomes.len(),
{
    if outcomes.len() == 0 {
        assert(outcomes.push(o)[0] == o);
        assert(outcomes.push(o).drop_first() =~= Seq::<Outcome>::empty());
        assert(fetched(outcomes.push(o).drop_first()) == 0);
    } else {
        law_only_a_refused_sign_in_ends_a_pass(outcomes);
        assert(!ends_pass(outcomes[0]));
        assert(outcomes.push(o)[0] == outcomes[0]);
        assert(outcomes.push(o).drop_first() =~= outcomes.drop_first().push(o));
        lemma_fetched_push(outcomes.drop_first(), o);
    }
}

/// What the program does goes by its first argument alone, and without one it
/// collects for good. The words of a question are all that follow `agent`.
pub proof fn law_the_first_argument_is_the_command(args: Seq<Seq<char>>)
    ensures
        args.len() == 0 ==> commanded(args) == CommandView::Run,
        args.len() > 0 && args[0] == "--health"@ ==> commanded(args) == CommandView::Health,
        args.len() > 0 && args[0] == "--once"@ ==> commanded(args) == CommandView::Once,
        args.len() > 0 && args[0] == "agent"@ ==> commanded(args) == CommandView::Agent(
            args.drop_first(),
        ),
        args.len() > 0 && args[0] != "--health"@ && args[0] != "--once"@ && args[0] != "agent"@
            ==> commanded(args) == CommandView::Unknown(args[0]),
{
    reveal_strlit("--health");
    reveal_strlit("--once");
    reveal_strlit("agent");
    assert("--health"@.len() == 8 && "--once"@.len() == 6 && "agent"@.len() == 5);
    if args.len() > 0 {
        assert(args.skip(1) =~= args.drop_first());
    }
}

/// The service is well where no sign-in was refused and its last success, if it had
/// one, is no more whole seconds ago than the limit.
pub proof fn law_when_the_service_is_well(h: HealthView, stale: i64, now: Instant)
    ensures
        !h.ok ==> !is_healthy(h, stale, now),
        h.ok && h.last_success is None ==> is_healthy(h, stale, now),
        h.ok ==> (h.last_success matches Some(t) ==> {
            &&& now@ - t@ >= 0 && stale >= 0 ==> (is_healthy(h, stale, now) <==> now@ - t@ < (stale
                + 1) * 1_000_000_000)
            &&& now@ - t@ < 0 && stale >= 0 ==> is_healthy(h, stale, now)
            &&& now@ - t@ >= 0 && stale < 0 ==> !is_healthy(h, stale, now)
        }),
{
}

/// The line says why the service is unwell: in the words of the failure that was
/// recorded, or how old the last success is and what the limit is. Of a service that
/// is well it says how old the last success is and how old the credential, or that it
/// is starting.
pub proof fn law_what_the_line_says(h: HealthView, stale: i64, now: Instant)
    ensures
        !h.ok ==> health_line(h, stale, now) == "unhealthy: "@ + (match h.last_error {
            Some(e) => e,
            None => "sign-in failed"@,
        }),
        h.ok && h.last_success is None ==> health_line(h, stale, now)
            == "starting: no pass has completed yet"@,
        h.ok ==> (h.last_success matches Some(t) ==> {
            let age = text::signed_digits(time::whole_seconds(now@ - t@));
            &&& !is_healthy(h, stale, now) ==> health_line(h, stale, now)
                == "unhealthy: last success was "@ + age + "s ago, limit is "@
                + text::signed_digits(stale as int) + "s"@
            &&& is_healthy(h, stale, now) ==> health_line(h, stale, now) == "ok: last success "@
                + age + "s ago"@ + (match h.authenticated_at {
                Some(a) => ", "@ + "credential "@ + text::signed_digits(
                    time::whole_days(now@ - a@),
                ) + " days old"@,
                None => ""@,
            })
        }),
{
}

/// A refusal says that there is no answer, what kind of refusal it is, and why.
pub proof fn law_a_refusal_says_why(error: Seq<char>, message: Seq<char>)
    ensures
        refusal_view(error, message) is Object,
        json::field(refusal_view(error, message)->Object_0, "ok"@) == Some(JsonView::Bool(false)),
        json::field(refusal_view(error, message)->Object_0, "error"@) == Some(
            JsonView::Text(error),
        ),
        json::field(refusal_view(error, message)->Object_0, "message"@) == Some(
            JsonView::Text(message),
        ),
{
    reveal_strlit("ok");
    reveal_strlit("error");
    reveal_strlit("message");
    assert("ok"@.len() == 2 && "error"@.len() == 5 && "message"@.len() == 7);
    let o = refusal_view(error, message)->Object_0;
    json::lemma_field_at(o, 0);
    json::lemma_field_at(o, 1);
    json::lemma_field_at(o, 2);
}

/// The work of a pass is, for every channel at every scale, everything from where the
/// store leaves off to now that the cloud still keeps, in windows that the API accepts:
/// from one point before the newest reading that is held of that very series, but not
/// before the account, nor before the last six days of minutes or 360 days of
/// quarter-hours.
pub proof fn law_a_pass_fetches_what_is_missing(
    channels: Seq<NamedChannel>,
    marks: Map<SeriesView, Watermark>,
    h: Horizon,
    c: int,
    series: SeriesView,
    kept_days: Option<int>,
    step: int,
    ceiling: int,
    floor: int,
    start: int,
)
    requires
        forall|a: int, b: int|
            0 <= a < b < channels.len() ==> !((#[trigger] channels[a]).device_gid == (
            #[trigger] channels[b]).device_gid && channels[a].channel_num@
                == channels[b].channel_num@),
        0 <= c < channels.len(),
        series.device_gid == channels[c].device_gid,
        series.channel_num == channels[c].channel_num@,
        series.scale == Scale::Minute ==> kept_days == Some(6int) && step == 60 && ceiling == 800
            * 60,
        series.scale == Scale::QuarterHour ==> kept_days == Some(360int) && step == 900 && ceiling
            == 168 * 3600,
        series.scale == Scale::Hour ==> kept_days is None && step == 3600 && ceiling == 800 * 3600,
        series.scale == Scale::Day ==> kept_days is None && step == 86_400 && ceiling == 12_000
            * 3600,
        floor == (match kept_days {
            Some(n) if h.now@ - n * 86_400 * 1_000_000_000 > h.account_created@ => h.now@ - n
                * 86_400 * 1_000_000_000,
            _ => h.account_created@,
        }),
        start == (if marks.contains_key(series) {
            match marks[series].newest {
                Some(t) if t@ - step * 1_000_000_000 > floor => t@ - step * 1_000_000_000,
                _ => floor,
            }
        } else {
            floor
        }),
    ensures
        ({
            let work = work_of(plan_channels(channels), marks, h).filter(
                |f: FetchView| f.series == series,
            );
            &&& start >= h.now@ ==> work.len() == 0
            &&& start < h.now@ ==> work.len() > 0 && work[0].start == start && work[work.len()
                - 1].end == h.now@
            &&& forall|k: int|
                0 <= k < work.len() ==> 0 < (#[trigger] work[k]).end - work[k].start <= ceiling
                    * 1_000_000_000
            &&& forall|j: int, k: int|
                0 <= j && j + 1 == k && k < work.len() ==> (#[trigger] work[j]).end == (
                #[trigger] work[k]).start && work[j].end - work[j].start == ceiling
                    * 1_000_000_000
        }),
{
    let known = plan_channels(channels);
    let found = seq![
        marks_at(known, marks, Scale::Minute),
        marks_at(known, marks, Scale::QuarterHour),
        marks_at(known, marks, Scale::Hour),
        marks_at(known, marks, Scale::Day),
    ];
    let place: int = match series.scale {
        Scale::Minute => 0,
        Scale::QuarterHour => 1,
        Scale::Hour => 2,
        Scale::Day => 3,
    };
    assert(forall|s: int| 0 <= s < 4 ==> (#[trigger] found[s]).len() == known.len());
    assert forall|a: int, b: int| 0 <= a < b < known.len() implies !((
    #[trigger] known[a]).device_gid == (#[trigger] known[b]).device_gid && known[a].channel_num@
        == known[b].channel_num@) by {
        assert(known[a].device_gid == channels[a].device_gid && known[b].device_gid
            == channels[b].device_gid);
    }
    assert(known[c].device_gid == channels[c].device_gid);
    assert(plan::series_of(known[c], series.scale) == series);
    assert(found[place][c] == store::mark_in(marks, series));
    plan::law_a_plan_covers_what_is_missing(
        known,
        found,
        h,
        c,
        series,
        place,
        kept_days,
        step,
        ceiling,
        floor,
        start,
    );
}

/// A fetch ends the pass exactly where it failed because a sign-in is no longer
/// accepted, and counts as many readings as it wrote, and none where it failed.
pub proof fn law_what_a_fetch_counts_for(o: Outcome)
    ensures
        ends_pass(o) <==> o is Failed && o->Failed_0 is Unauthorised,
        o matches Outcome::Saved(n) ==> saved(o) == n,
        !(o is Saved) ==> saved(o) == 0,
{
}

/// What fetches have written together is what each of them wrote.
pub proof fn law_what_is_written_adds_up(outcomes: Seq<Outcome>, o: Outcome)
    ensures
        total_saved(Seq::empty()) == 0,
        total_saved(outcomes.push(o)) == total_saved(outcomes) + (match o {
            Outcome::Saved(n) => n as int,
            _ => 0,
        }),
{
    assert(outcomes.push(o).drop_last() =~= outcomes);
}

/// A fetch that failed is told in its own words, and one that was refused by its
/// status and its series; one that wrote its readings, or ends the pass, is not.
pub proof fn law_what_is_said_of_a_fetch(series: SeriesView, o: Outcome)
    ensures
        o is Saved ==> fetch_line(series, o) is None,
        o matches Outcome::Unreadable(e) ==> fetch_line(series, o) == Some(
            "dynamo: unreadable usage body: "@ + e@,
        ),
        o matches Outcome::Unsaved(e) ==> fetch_line(series, o) == Some("dynamo: "@ + e@),
        o matches Outcome::Failed(f) ==> {
            &&& f is Unauthorised ==> fetch_line(series, o) is None
            &&& f matches Fault::Transient(m) ==> fetch_line(series, o) == Some("dynamo: "@ + m@)
            &&& f matches Fault::Refused { status, message } ==> fetch_line(series, o) == Some(
                "dynamo: refused ("@ + text::digits(status as nat) + ") for "@
                    + text::signed_digits(series.device_gid as int) + " "@ + series.channel_num
                    + " "@ + series.scale.name() + ": "@ + message@,
            )
        },
{
}

/// What is held is told scale by scale in its order, each with its count, with a comma
/// between them.
pub proof fn law_what_is_held_is_told_scale_by_scale(
    held: Seq<(Scale, i64)>,
    last: (Scale, i64),
)
    ensures
        holding(Seq::empty()) == ""@,
        holding(held.push(last)) == (if held.len() == 0 {
            last.0.name() + " "@ + text::signed_digits(last.1 as int)
        } else {
            holding(held) + ", "@ + last.0.name() + " "@ + text::signed_digits(last.1 as int)
        }),
{
    assert(held.push(last).drop_last() =~= held);
}

/// A complete pass tells how many readings it wrote, what is held, and how many whole
/// days ago the credential was signed in, where that is known.
pub proof fn law_what_is_said_of_a_complete_pass(
    written: nat,
    held: Seq<(Scale, i64)>,
    signed_in: Option<Instant>,
    now: Instant,
)
    ensures
        pass_line(written, held, signed_in, now) == "pass complete: "@ + text::digits(written)
            + " readings written; holding "@ + holding(held) + (match signed_in {
            Some(t) => "; "@ + "credential "@ + text::signed_digits(time::whole_days(now@ - t@))
                + " days old"@,
            None => ""@,
        }),
{
}

/// A sign-in that is no longer accepted is told with what to do about it; any other
/// failure is told in a line.
pub proof fn law_what_is_said_of_a_failed_pass(f: FaultView)
    ensures
        f matches FaultView::Unauthorised(m) ==> failure_lines(f) == seq![
            "dynamo: "@ + m,
            "dynamo: DYNAMO_REFRESH_TOKEN is no longer accepted. See README.md,"@,
            "dynamo: 'Re-seeding the refresh token'. Nothing will be collected"@,
            "dynamo: until it is replaced."@,
        ],
        f matches FaultView::Refused { status, message } ==> failure_lines(f) == seq![
            "dynamo: pass failed: "@ + ("refused ("@ + text::digits(status as nat) + "): "@
                + message),
        ],
        f matches FaultView::Transient(m) ==> failure_lines(f) == seq![
            "dynamo: pass failed: "@ + m,
        ],
{
}

/// The channels that a pass plans for are those of the account, each by its monitor
/// and number, in their order.
pub proof fn law_a_pass_plans_for_every_channel(channels: Seq<NamedChannel>, i: int)
    ensures
        plan_channels(channels).len() == channels.len(),
        0 <= i < channels.len() ==> plan_channels(channels)[i] == (Channel {
            device_gid: channels[i].device_gid,
            channel_num: channels[i].channel_num,
        }),
{
}

/// A pass can be planned exactly where the account's beginning, now, and the 360 days
/// before it where there is a channel, can be represented, and for every channel at
/// every scale the newest reading that is held of it, and the one a step before that.
pub proof fn law_when_a_pass_can_be_planned(
    channels: Seq<Channel>,
    marks: Map<SeriesView, Watermark>,
    h: Horizon,
)
    ensures
        can_plan(channels, marks, h) <==> {
            &&& time::representable(h.account_created@)
            &&& time::representable(h.now@)
            &&& channels.len() > 0 ==> time::representable(
                h.now@ - 360 * 86_400 * 1_000_000_000,
            )
            &&& forall|c: int, s: SeriesView|
                0 <= c < channels.len() && s.device_gid == (#[trigger] channels[c]).device_gid
                    && s.channel_num == channels[c].channel_num@ && (#[trigger] marks.contains_key(
                    s,
                )) ==> (marks[s].newest matches Some(t) ==> time::representable(t@)
                    && time::representable(t@ - s.scale.step_seconds() * 1_000_000_000))
        },
{
    if can_plan(channels, marks, h) {
        assert forall|c: int, s: SeriesView|
            0 <= c < channels.len() && s.device_gid == (#[trigger] channels[c]).device_gid
                && s.channel_num == channels[c].channel_num@ && (#[trigger] marks.contains_key(
                s,
            )) implies (marks[s].newest matches Some(t) ==> time::representable(t@)
            && time::representable(t@ - s.scale.step_seconds() * 1_000_000_000)) by {
            assert(s == plan::series_of(channels[c], s.scale));
            assert(plan::asked(channels, s));
            assert(plan::mark_fits(store::mark_in(marks, s), s.scale));
        }
    }
    if forall|c: int, s: SeriesView|
        0 <= c < channels.len() && s.device_gid == (#[trigger] channels[c]).device_gid
            && s.channel_num == channels[c].channel_num@ && (#[trigger] marks.contains_key(s)) ==> (
        marks[s].newest matches Some(t) ==> time::representable(t@) && time::representable(
            t@ - s.scale.step_seconds() * 1_000_000_000,
        )) {
        assert forall|s: SeriesView| #[trigger] plan::asked(channels, s) implies plan::mark_fits(
            store::mark_in(marks, s),
            s.scale,
        ) by {
            let c = choose|c: int|
                0 <= c < channels.len() && s == #[trigger] plan::series_of(channels[c], s.scale);
            assert(channels[c].device_gid == s.device_gid);
            assert(marks.contains_key(s) || !marks.contains_key(s));
        }
    }
}

/// The program ends unwell after a fatal failure, whether it was to go on or not; well
/// after the one pass that it was asked for; and otherwise makes another after the
/// interval.
pub proof fn law_what_follows_a_pass(fatal: bool, once: bool, interval_secs: u64)
    ensures
        fatal ==> followed(fatal, once, interval_secs) == (After::Exit { success: false }),
        !fatal && once ==> followed(fatal, once, interval_secs) == (After::Exit { success: true }),
        !fatal && !once ==> followed(fatal, once, interval_secs) == (After::Wait {
            seconds: interval_secs,
        }),
{
}

/// A sign-in that is no longer accepted is the end of the service, and leaves it unwell
/// by every later question after its health; no other failure is.
pub proof fn law_only_a_refused_sign_in_is_the_end(
    f: FaultView,
    h: HealthView,
    at: Instant,
    stale: i64,
    now: Instant,
)
    ensures
        f is Unauthorised <==> is_fatal(f),
        f is Unauthorised ==> !is_healthy(
            store::beaten(h, store::failure_query(http::fault_text(f), is_fatal(f)), at),
            stale,
            now,
        ),
        !(f is Unauthorised) ==> is_healthy(
            store::beaten(h, store::failure_query(http::fault_text(f), is_fatal(f)), at),
            stale,
            now,
        ) == is_healthy(h, stale, now),
{
    store::law_a_failure_is_recorded(h, http::fault_text(f), is_fatal(f), at);
}

/// A command is seen as what it holds.
pub proof fn law_a_command_is_seen_as_it_is(words: Vec<String>, word: String)
    ensures
        Command::Health@ is Health,
        Command::Once@ is Once,
        Command::Run@ is Run,
        Command::Agent(words)@ == CommandView::Agent(text::texts(words@)),
        Command::Unknown(word)@ == CommandView::Unknown(word@),
{
}

} // verus!
