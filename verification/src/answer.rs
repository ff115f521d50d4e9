//! Answering a request: what is asked of the store, and the JSON made of what
//! comes back.
//!
//! The store is read elsewhere. [`answer`] gives the reply or the first
//! question for the store; the question gives its query, and the functions
//! below make the reply, or the next question, of the rows. Every query is a
//! `SELECT`.

use crate::agent::{self, Kind, Request, RequestView, Span, SpanView, MAX_ROWS};
use crate::emporia::{ChannelKind, NamedChannel};
use crate::json::{self, Json, JsonView};
use crate::scale::Scale;
use crate::sort;
use crate::store::{self, ChannelKey, ChannelRecord, Param, ParamView, Query};
use crate::text;
use crate::time::{self, Instant, Zone};
use vstd::prelude::*;

verus! {

/// One candidate for a name somebody typed.
#[derive(Debug, PartialEq, Eq)]
pub struct Match {
    pub device_gid: i64,
    pub channel_num: String,
    pub label: String,
    pub kind: String,
    pub merged_into: Option<String>,
}

impl Clone for Match {
    fn clone(&self) -> (r: Match)
        ensures
            r == *self,
    {
        Match {
            device_gid: self.device_gid,
            channel_num: self.channel_num.clone(),
            label: self.label.clone(),
            kind: self.kind.clone(),
            merged_into: text::copied(&self.merged_into),
        }
    }
}

/// Whether a candidate is called exactly what was typed, but for case and the
/// white space around it.
pub open spec fn named_exactly(m: Match, query: Seq<char>) -> bool {
    text::same_letters(m.label@, text::trimmed(query))
}

/// The candidates that matter: those called exactly what was typed, or all of
/// them where none is.
pub open spec fn pool(matches: Seq<Match>, query: Seq<char>) -> Seq<Match> {
    let exact = matches.filter(|m: Match| named_exactly(m, query));
    if exact.len() == 0 {
        matches
    } else {
        exact
    }
}

/// Whether a candidate is a merged circuit.
pub open spec fn is_merged(m: Match) -> bool {
    m.kind@ == "merged"@
}

/// Whether a candidate is a leg of some merged circuit of a monitor.
pub open spec fn is_leg(m: Match, device_gid: i64) -> bool {
    m.kind@ == "branch"@ && m.merged_into is Some && m.device_gid == device_gid
}

/// The merged circuits among candidates.
pub open spec fn merged_of(s: Seq<Match>) -> Seq<Match> {
    s.filter(|m: Match| is_merged(m))
}

/// Whether there is one merged circuit among candidates, and everything else is
/// a leg on its monitor.
pub open spec fn one_circuit(s: Seq<Match>) -> bool {
    &&& merged_of(s).len() == 1
    &&& forall|i: int|
        0 <= i < s.len() && !is_merged(#[trigger] s[i]) ==> is_leg(
            s[i],
            merged_of(s)[0].device_gid,
        )
}

/// The candidates that a person may have meant.
pub open spec fn narrowed(matches: Seq<Match>, query: Seq<char>) -> Seq<Match> {
    let pool = pool(matches, query);
    if one_circuit(pool) {
        merged_of(pool)
    } else {
        pool
    }
}

/// The candidates called exactly what was typed.
fn exact_of(matches: &[Match], query: &str) -> (out: Vec<Match>)
    ensures
        out@ == matches@.filter(|m: Match| named_exactly(m, query@)),
{
    let name = text::trim(query);
    let ghost p = |m: Match| named_exactly(m, query@);
    let mut out: Vec<Match> = Vec::new();
    let mut i: usize = 0;
    proof {
        reveal(Seq::filter);
        assert(matches@.take(0) =~= out@);
    }
    while i < matches.len()
        invariant
            i <= matches.len(),
            name@ == text::trimmed(query@),
            p == (|m: Match| named_exactly(m, query@)),
            out@ == matches@.take(i as int).filter(p),
        decreases matches.len() - i,
    {
        proof {
            reveal(Seq::filter);
            assert(matches@.take(i + 1).drop_last() =~= matches@.take(i as int));
        }
        if text::same_ignoring_case(matches[i].label.as_str(), name.as_str()) {
            out.push(matches[i].clone());
        }
        i = i + 1;
    }
    assert(matches@.take(matches@.len() as int) =~= matches@);
    out
}

/// A list of candidates, copied.
fn copied(matches: &[Match]) -> (out: Vec<Match>)
    ensures
        out@ == matches@,
{
    let mut out: Vec<Match> = Vec::new();
    let mut i: usize = 0;
    while i < matches.len()
        invariant
            i <= matches.len(),
            out@ =~= matches@.take(i as int),
        decreases matches.len() - i,
    {
        out.push(matches[i].clone());
        i = i + 1;
    }
    out
}

/// Narrows a set of candidates to the one a person meant, if there is one.
///
/// An exact name beats a substring, and a merged circuit beats its own legs:
/// legs and their merge are one circuit described twice. Two circuits of the
/// same name survive both rules, and are a question for the person.
pub fn narrow(matches: &[Match], query: &str) -> (out: Vec<Match>)
    ensures
        out@ == narrowed(matches@, query@),
{
    let exact = exact_of(matches, query);
    let found = if exact.len() == 0 {
        copied(matches)
    } else {
        exact
    };
    assert(found@ == pool(matches@, query@));
    let ghost p = |m: Match| is_merged(m);
    let mut merged: Vec<Match> = Vec::new();
    let mut i: usize = 0;
    proof {
        reveal(Seq::filter);
        assert(found@.take(0) =~= merged@);
    }
    while i < found.len()
        invariant
            i <= found.len(),
            p == (|m: Match| is_merged(m)),
            merged@ == found@.take(i as int).filter(p),
        decreases found.len() - i,
    {
        proof {
            reveal(Seq::filter);
            assert(found@.take(i + 1).drop_last() =~= found@.take(i as int));
        }
        if text::same(found[i].kind.as_str(), "merged") {
            merged.push(found[i].clone());
        }
        i = i + 1;
    }
    assert(found@.take(found@.len() as int) =~= found@);
    assert(merged@ == merged_of(found@));
    if merged.len() != 1 {
        return found;
    }
    let gid = merged[0].device_gid;
    let mut k: usize = 0;
    while k < found.len()
        invariant
            k <= found.len(),
            merged@ == merged_of(found@),
            merged.len() == 1,
            gid == merged@[0].device_gid,
            found@ == pool(matches@, query@),
            forall|j: int|
                0 <= j < k && !is_merged(#[trigger] found@[j]) ==> is_leg(found@[j], gid),
        decreases found.len() - k,
    {
        let m = &found[k];
        if !text::same(m.kind.as_str(), "merged") {
            if !text::same(m.kind.as_str(), "branch") || m.merged_into.is_none() || m.device_gid
                != gid {
                assert(!is_merged(found@[k as int]) && !is_leg(found@[k as int], gid));
                return found;
            }
        }
        k = k + 1;
    }
    merged
}

/// What narrowing leaves was offered.
pub proof fn law_narrowing_invents_nothing(matches: Seq<Match>, query: Seq<char>, i: int)
    requires
        0 <= i < narrowed(matches, query).len(),
    ensures
        matches.contains(narrowed(matches, query)[i]),
{
    let p = |m: Match| named_exactly(m, query);
    let q = |m: Match| is_merged(m);
    let pool = pool(matches, query);
    let x = narrowed(matches, query)[i];
    if one_circuit(pool) {
        assert(pool.filter(q).contains(x));
        pool.lemma_filter_contains_rev(q, x);
    }
    assert(pool.contains(x));
    if matches.filter(p).len() != 0 {
        matches.lemma_filter_contains_rev(p, x);
    }
}

/// Narrowing leaves something of anything.
pub proof fn law_narrowing_leaves_something(matches: Seq<Match>, query: Seq<char>)
    ensures
        narrowed(matches, query).len() == 0 <==> matches.len() == 0,
{
    let p = |m: Match| named_exactly(m, query);
    matches.lemma_filter_len(p);
}

/// Where some candidate is called exactly what was typed, every one that is
/// left is.
pub proof fn law_an_exact_name_beats_a_substring(
    matches: Seq<Match>,
    query: Seq<char>,
    exact: int,
    i: int,
)
    requires
        0 <= exact < matches.len(),
        named_exactly(matches[exact], query),
        0 <= i < narrowed(matches, query).len(),
    ensures
        named_exactly(narrowed(matches, query)[i], query),
{
    let p = |m: Match| named_exactly(m, query);
    let q = |m: Match| is_merged(m);
    matches.lemma_filter_contains(p, exact);
    let pool = pool(matches, query);
    let x = narrowed(matches, query)[i];
    if one_circuit(pool) {
        assert(pool.filter(q).contains(x));
        pool.lemma_filter_contains_rev(q, x);
    }
    assert(pool.contains(x));
    let k = choose|k: int| 0 <= k < pool.len() && pool[k] == x;
    matches.lemma_filter_pred(p, k);
}

/// One merged circuit and nothing else but legs on its monitor is an answer:
/// the merged circuit.
pub proof fn law_a_merged_circuit_beats_its_legs(
    matches: Seq<Match>,
    query: Seq<char>,
    merged: int,
)
    requires
        0 <= merged < pool(matches, query).len(),
        is_merged(pool(matches, query)[merged]),
        forall|i: int|
            0 <= i < pool(matches, query).len() && i != merged ==> is_leg(
                #[trigger] pool(matches, query)[i],
                pool(matches, query)[merged].device_gid,
            ),
    ensures
        narrowed(matches, query) == seq![pool(matches, query)[merged]],
{
    let pool = pool(matches, query);
    lemma_only_merged(pool, merged);
}

proof fn lemma_legs_are_not_merged(m: Match, gid: i64)
    requires
        is_leg(m, gid),
    ensures
        !is_merged(m),
{
    reveal_strlit("merged");
    reveal_strlit("branch");
    assert("merged"@[0] != "branch"@[0]);
}

proof fn lemma_only_merged(s: Seq<Match>, k: int)
    requires
        0 <= k < s.len(),
        is_merged(s[k]),
        forall|i: int|
            0 <= i < s.len() && i != k ==> is_leg(#[trigger] s[i], s[k].device_gid),
    ensures
        merged_of(s) == seq![s[k]],
{
    let q = |m: Match| is_merged(m);
    let a = s.take(k);
    let b = s.skip(k + 1);
    assert(s =~= a + seq![s[k]] + b);
    Seq::filter_distributes_over_add(a + seq![s[k]], b, q);
    Seq::filter_distributes_over_add(a, seq![s[k]], q);
    assert forall|i: int| 0 <= i < a.len() implies !q(#[trigger] a[i]) by {
        lemma_legs_are_not_merged(s[i], s[k].device_gid);
    }
    assert forall|i: int| 0 <= i < b.len() implies !q(#[trigger] b[i]) by {
        lemma_legs_are_not_merged(s[k + 1 + i], s[k].device_gid);
    }
    sort::lemma_filter_none(a, q);
    sort::lemma_filter_none(b, q);
    reveal_with_fuel(Seq::filter, 2);
    assert(seq![s[k]].filter(q) =~= seq![s[k]]);
    assert(merged_of(s) =~= seq![s[k]]);
}

/// Two merged circuits stay a question.
pub proof fn law_two_merged_circuits_stay_a_question(
    matches: Seq<Match>,
    query: Seq<char>,
    i: int,
    j: int,
)
    requires
        0 <= i < j < pool(matches, query).len(),
        is_merged(pool(matches, query)[i]),
        is_merged(pool(matches, query)[j]),
    ensures
        narrowed(matches, query) == pool(matches, query),
{
    let q = |m: Match| is_merged(m);
    let s = pool(matches, query);
    let a = s.take(j);
    let b = s.skip(j);
    assert(s =~= a + b);
    Seq::filter_distributes_over_add(a, b, q);
    assert(a[i] == s[i] && b[0] == s[j]);
    a.lemma_filter_contains(q, i);
    b.lemma_filter_contains(q, 0);
    assert(merged_of(s).len() >= 2);
}

/// A branch that belongs to no merge stays a question beside anything else, and
/// so does a leg on another monitor than the merged circuit.
pub proof fn law_a_circuit_of_its_own_stays_a_question(
    matches: Seq<Match>,
    query: Seq<char>,
    i: int,
    merged: int,
)
    requires
        0 <= i < pool(matches, query).len(),
        0 <= merged < pool(matches, query).len(),
        is_merged(pool(matches, query)[merged]),
        !is_merged(pool(matches, query)[i]),
        pool(matches, query)[i].merged_into is None || pool(matches, query)[i].device_gid != pool(
            matches,
            query,
        )[merged].device_gid,
    ensures
        narrowed(matches, query) == pool(matches, query),
{
    let q = |m: Match| is_merged(m);
    let s = pool(matches, query);
    s.lemma_filter_contains(q, merged);
    if one_circuit(s) {
        assert(s.filter(q).contains(s[merged]));
        assert(s.filter(q)[0] == s[merged]);
        assert(is_leg(s[i], s[merged].device_gid));
    }
}

/// A label for a channel, in the words a person would use: the name it was
/// given, or else its monitor and number. A monitor that nobody named goes by its
/// gid, which every channel has, so a label is never empty and never null and
/// always says which channel it is.
pub const LABEL: &'static str =
    "coalesce(nullif(c.name, ''), \
     coalesce(c.device_name, c.device_gid::text) || ' ch' || c.channel_num)";

pub const MAIN_FILTER: &'static str = "c.kind = 'main'";

pub const BRANCH_FILTER: &'static str = "c.kind = 'branch'";

pub const MERGED_FILTER: &'static str = "c.kind = 'merged'";

/// Merged channels, and the branch legs that belong to no merge: every circuit
/// exactly once.
pub const CIRCUITS_FILTER: &'static str =
    "(c.kind = 'merged' OR (c.kind = 'branch' AND c.merged_into IS NULL))";

/// The filter for a kind.
pub open spec fn filter_of(kind: Kind) -> Seq<char> {
    match kind {
        Kind::Main => MAIN_FILTER@,
        Kind::Branch => BRANCH_FILTER@,
        Kind::Merged => MERGED_FILTER@,
        Kind::Circuits => CIRCUITS_FILTER@,
    }
}

/// The filter for a kind.
pub fn kind_sql(kind: Kind) -> (s: &'static str)
    ensures
        s@ == filter_of(kind),
{
    match kind {
        Kind::Main => MAIN_FILTER,
        Kind::Branch => BRANCH_FILTER,
        Kind::Merged => MERGED_FILTER,
        Kind::Circuits => CIRCUITS_FILTER,
    }
}

/// Whether a filter passes a stored channel.
pub open spec fn passes(filter: Seq<char>, c: ChannelRecord) -> bool {
    if filter == MAIN_FILTER@ {
        c.kind == "main"@
    } else if filter == BRANCH_FILTER@ {
        c.kind == "branch"@
    } else if filter == MERGED_FILTER@ {
        c.kind == "merged"@
    } else if filter == CIRCUITS_FILTER@ {
        c.kind == "merged"@ || (c.kind == "branch"@ && c.merged_into is None)
    } else {
        false
    }
}

/// Whether a question about a kind counts a stored channel.
pub open spec fn counts(kind: Kind, c: ChannelRecord) -> bool {
    passes(filter_of(kind), c)
}

proof fn lemma_filters_differ()
    ensures
        BRANCH_FILTER@ != MAIN_FILTER@,
        MERGED_FILTER@ != MAIN_FILTER@,
        MERGED_FILTER@ != BRANCH_FILTER@,
        CIRCUITS_FILTER@ != MAIN_FILTER@,
        CIRCUITS_FILTER@ != BRANCH_FILTER@,
        CIRCUITS_FILTER@ != MERGED_FILTER@,
{
    reveal_strlit("c.kind = 'main'");
    reveal_strlit("c.kind = 'branch'");
    reveal_strlit("c.kind = 'merged'");
    reveal_strlit("(c.kind = 'merged' OR (c.kind = 'branch' AND c.merged_into IS NULL))");
    assert(MAIN_FILTER@.len() == 15 && BRANCH_FILTER@.len() == 17 && MERGED_FILTER@.len() == 17);
    assert(BRANCH_FILTER@[10] == 'b' && MERGED_FILTER@[10] == 'm');
    assert(CIRCUITS_FILTER@[0] == '(' && MAIN_FILTER@[0] == 'c');
    assert(BRANCH_FILTER@[0] == 'c' && MERGED_FILTER@[0] == 'c');
}

/// A question about a kind counts the channels of that kind; one about circuits
/// counts merged channels and the branches that belong to no merge, and nothing
/// else.
pub proof fn law_each_kind_counts_its_own(c: ChannelRecord)
    ensures
        counts(Kind::Main, c) <==> c.kind == "main"@,
        counts(Kind::Branch, c) <==> c.kind == "branch"@,
        counts(Kind::Merged, c) <==> c.kind == "merged"@,
        counts(Kind::Circuits, c) <==> c.kind == "merged"@ || (c.kind == "branch"@
            && c.merged_into is None),
{
    lemma_filters_differ();
}

proof fn lemma_kind_words_differ()
    ensures
        "main"@ != "branch"@,
        "main"@ != "merged"@,
        "branch"@ != "merged"@,
{
    reveal_strlit("main");
    reveal_strlit("branch");
    reveal_strlit("merged");
    assert("main"@.len() == 4 && "branch"@.len() == 6 && "merged"@.len() == 6);
    assert("branch"@[0] != "merged"@[0]);
}

/// Of the stored channels, a question about circuits counts a merged channel and
/// none of its legs beside it.
pub proof fn law_no_leg_is_counted_beside_its_merge(
    m: Map<ChannelKey, ChannelRecord>,
    leg: ChannelKey,
    merge: ChannelKey,
)
    requires
        m.contains_key(leg),
        m.contains_key(merge),
        leg.device_gid == merge.device_gid,
        m[leg].kind == "branch"@,
        m[leg].merged_into == Some(merge.channel_num),
        m[merge].kind == "merged"@,
    ensures
        counts(Kind::Circuits, m[merge]),
        !counts(Kind::Circuits, m[leg]),
{
    law_each_kind_counts_its_own(m[merge]);
    law_each_kind_counts_its_own(m[leg]);
    lemma_kind_words_differ();
}

/// Once a channel is stored as it is described, a question about circuits counts
/// it if it is merged, and if it is a branch that belongs to no merge. It counts
/// no leg of a merge and none of the mains.
pub proof fn law_circuits_go_by_kind_and_merge(c: NamedChannel)
    ensures
        ({
            let row = store::description(c);
            &&& c.kind == ChannelKind::Branch && c.merged_into is Some ==> !counts(
                Kind::Circuits,
                row,
            )
            &&& c.kind == ChannelKind::Branch && c.merged_into is None ==> counts(
                Kind::Circuits,
                row,
            )
            &&& c.kind == ChannelKind::Merged ==> counts(Kind::Circuits, row)
            &&& c.kind == ChannelKind::Main ==> !counts(Kind::Circuits, row)
        }),
{
    law_each_kind_counts_its_own(store::description(c));
    lemma_kind_words_differ();
}

/// How many points per circuit a sum over a period may scan before it moves to
/// a coarser scale.
///
/// What grows with the period is not the answer, which has a row a circuit, but
/// the number of rows summed to produce it.
pub const SCAN_BUDGET: i64 = 2_000;

/// The seconds in a period, at least one.
pub open spec fn length_of(span: SpanView) -> int {
    let n = time::whole_seconds(span.to - span.from);
    if n < 1 {
        1
    } else {
        n
    }
}

/// The points per circuit that a sum over a period scans at a scale.
pub open spec fn scanned(span: SpanView, scale: Scale) -> int {
    length_of(span) / (scale.step_seconds() as int)
}

/// The finest scale that answers a period within the budget, or the coarsest
/// where none does.
pub open spec fn finest(span: SpanView) -> Scale {
    if scanned(span, Scale::Minute) <= SCAN_BUDGET {
        Scale::Minute
    } else if scanned(span, Scale::QuarterHour) <= SCAN_BUDGET {
        Scale::QuarterHour
    } else if scanned(span, Scale::Hour) <= SCAN_BUDGET {
        Scale::Hour
    } else {
        Scale::Day
    }
}

/// The finest scale that answers a period within [`SCAN_BUDGET`].
pub fn scale_for(span: &Span) -> (s: Scale)
    requires
        span.valid(),
    ensures
        s == finest(span@),
{
    let length = span.to.since(span.from).num_seconds();
    let seconds = if length < 1 {
        1
    } else {
        length
    };
    assert(seconds == length_of(span@));
    if seconds / Scale::Minute.step().num_seconds() <= SCAN_BUDGET {
        Scale::Minute
    } else if seconds / Scale::QuarterHour.step().num_seconds() <= SCAN_BUDGET {
        Scale::QuarterHour
    } else if seconds / Scale::Hour.step().num_seconds() <= SCAN_BUDGET {
        Scale::Hour
    } else {
        Scale::Day
    }
}

/// Every period stays inside the budget, or is already at the coarsest scale.
pub proof fn law_a_period_stays_inside_the_budget(span: SpanView)
    ensures
        scanned(span, finest(span)) <= SCAN_BUDGET || finest(span) == Scale::Day,
{
}

/// No finer scale than the one chosen would have fitted the budget.
pub proof fn law_the_finest_scale_that_fits_is_chosen(span: SpanView, finer: Scale)
    requires
        finer.step_seconds() < finest(span).step_seconds(),
    ensures
        scanned(span, finer) > SCAN_BUDGET,
{
}

/// A moment in the caller's own time zone, with its offset.
pub fn at(t: Instant, zone: Zone) -> (s: String)
    requires
        t.valid(),
        zone.valid(),
    ensures
        s@ == t.local_stamp(zone),
        time::ends_with(s@, time::offset_text(zone.east as int)),
{
    t.local_text(zone)
}

/// A circuit by its monitor, its number there and its label.
#[derive(Debug, PartialEq, Eq)]
pub struct Circuit {
    pub device_gid: i64,
    pub channel_num: String,
    pub label: String,
}

/// A circuit, its strings as characters.
pub struct CircuitView {
    pub device_gid: i64,
    pub channel_num: Seq<char>,
    pub label: Seq<char>,
}

impl View for Circuit {
    type V = CircuitView;

    open spec fn view(&self) -> CircuitView {
        CircuitView {
            device_gid: self.device_gid,
            channel_num: self.channel_num@,
            label: self.label@,
        }
    }
}

/// What the store is asked on the way to an answer.
#[derive(Debug, PartialEq, Eq)]
pub enum Question {
    /// Every circuit that is measured.
    Channels,
    /// The newest minute each circuit has.
    Now,
    /// Energy by circuit over a period.
    Usage { span: Span, kind: Kind },
    /// The circuits that a name may mean.
    Circuit { query: String, span: Span, scale: Scale },
    /// One circuit's readings over a period.
    Points { circuit: Circuit, span: Span, scale: Scale },
}

/// What the store is asked, its strings as characters.
pub enum QuestionView {
    Channels,
    Now,
    Usage { span: SpanView, kind: Kind },
    Circuit { query: Seq<char>, span: SpanView, scale: Scale },
    Points { circuit: CircuitView, span: SpanView, scale: Scale },
}

impl View for Question {
    type V = QuestionView;

    open spec fn view(&self) -> QuestionView {
        match self {
            Question::Channels => QuestionView::Channels,
            Question::Now => QuestionView::Now,
            Question::Usage { span, kind } => QuestionView::Usage { span: span@, kind: *kind },
            Question::Circuit { query, span, scale } => QuestionView::Circuit {
                query: query@,
                span: span@,
                scale: *scale,
            },
            Question::Points { circuit, span, scale } => QuestionView::Points {
                circuit: circuit@,
                span: span@,
                scale: *scale,
            },
        }
    }
}

/// One step of answering: the reply, or a question for the store.
#[derive(Debug, PartialEq, Eq)]
pub enum Step {
    Reply(Json),
    Ask(Question),
}

/// One step of answering, as views.
pub enum StepView {
    Reply(JsonView),
    Ask(QuestionView),
}

impl View for Step {
    type V = StepView;

    open spec fn view(&self) -> StepView {
        match self {
            Step::Reply(j) => StepView::Reply(j@),
            Step::Ask(q) => StepView::Ask(q@),
        }
    }
}

impl Question {
    /// A question whose moments, if it has any, can be represented.
    pub open spec fn valid(self) -> bool {
        match self {
            Question::Channels => true,
            Question::Now => true,
            Question::Usage { span, .. } => span.valid(),
            Question::Circuit { span, .. } => span.valid(),
            Question::Points { span, .. } => span.valid(),
        }
    }
}

impl Step {
    /// A reply, or a valid question.
    pub open spec fn valid(self) -> bool {
        self matches Step::Ask(q) ==> q.valid()
    }
}

/// Where answering a request begins: only the description of the interface
/// needs no store.
pub open spec fn first_step(request: RequestView) -> StepView {
    match request {
        RequestView::Describe => StepView::Reply(agent::described()),
        RequestView::Channels => StepView::Ask(QuestionView::Channels),
        RequestView::Now => StepView::Ask(QuestionView::Now),
        RequestView::Usage { span, kind } => StepView::Ask(QuestionView::Usage { span, kind }),
        RequestView::Series { query, span, scale } => StepView::Ask(
            QuestionView::Circuit { query, span, scale },
        ),
    }
}

/// Begins to answer a request.
pub fn answer(request: &Request) -> (step: Step)
    ensures
        step@ == first_step(request@),
        request.valid() ==> step.valid(),
{
    match request {
        Request::Describe => Step::Reply(agent::describe()),
        Request::Channels => Step::Ask(Question::Channels),
        Request::Now => Step::Ask(Question::Now),
        Request::Usage { span, kind } => Step::Ask(Question::Usage { span: *span, kind: *kind }),
        Request::Series { query, span, scale } => Step::Ask(
            Question::Circuit { query: query.clone(), span: *span, scale: *scale },
        ),
    }
}

/// The query for every circuit, around its label and its filter.
pub open spec fn channels_sql() -> Seq<char> {
    "SELECT "@ + LABEL@
        + " AS label, c.device_name, c.channel_num, c.kind, c.name IS NOT NULL FROM channel c WHERE "@
        + CIRCUITS_FILTER@
        + " ORDER BY c.device_name, c.kind, length(c.channel_num), c.channel_num"@
}

/// The query for the newest minute of each circuit.
pub open spec fn now_sql() -> Seq<char> {
    "SELECT DISTINCT ON (r.device_gid, r.channel_num) "@ + LABEL@
        + " AS label, r.kwh, r.instant FROM reading r JOIN channel c USING (device_gid, channel_num) WHERE r.scale = '1MIN' AND "@
        + CIRCUITS_FILTER@
        + " AND r.instant > now() - interval '30 minutes' ORDER BY r.device_gid, r.channel_num, r.instant DESC"@
}

/// The query for energy by circuit.
pub open spec fn usage_sql(kind: Kind) -> Seq<char> {
    "SELECT "@ + LABEL@
        + " AS label, sum(r.kwh) AS kwh FROM reading r JOIN channel c USING (device_gid, channel_num) WHERE r.scale = $1 AND "@
        + filter_of(kind)
        + " AND r.instant >= $2 AND r.instant < $3 GROUP BY label HAVING sum(r.kwh) > 0 ORDER BY kwh DESC"@
}

/// The query for the circuits that a name may mean.
pub open spec fn circuit_sql() -> Seq<char> {
    "SELECT c.device_gid, c.channel_num, "@ + LABEL@
        + " AS label, c.kind, c.merged_into FROM channel c WHERE ("@ + LABEL@
        + ") ILIKE $1 OR c.device_gid || '/' || c.channel_num = $2 ORDER BY label"@
}

/// The query for one circuit's readings.
pub const POINTS_SQL: &'static str =
    "SELECT instant, kwh FROM reading WHERE device_gid = $1 AND channel_num = $2 AND scale = $3 \
     AND instant >= $4 AND instant < $5 ORDER BY instant";

/// The text of a question's query.
pub open spec fn sql_of(q: QuestionView) -> Seq<char> {
    match q {
        QuestionView::Channels => channels_sql(),
        QuestionView::Now => now_sql(),
        QuestionView::Usage { kind, .. } => usage_sql(kind),
        QuestionView::Circuit { .. } => circuit_sql(),
        QuestionView::Points { .. } => POINTS_SQL@,
    }
}

/// What a question's query is handed.
pub open spec fn params_of(q: QuestionView) -> Seq<ParamView> {
    match q {
        QuestionView::Channels => seq![],
        QuestionView::Now => seq![],
        QuestionView::Usage { span, .. } => seq![
            ParamView::Text(finest(span).name()),
            ParamView::Moment(span.from),
            ParamView::Moment(span.to),
        ],
        QuestionView::Circuit { query, .. } => seq![
            ParamView::Text("%"@ + query + "%"@),
            ParamView::Text(query),
        ],
        QuestionView::Points { circuit, span, scale } => seq![
            ParamView::Int(circuit.device_gid),
            ParamView::Text(circuit.channel_num),
            ParamView::Text(scale.name()),
            ParamView::Moment(span.from),
            ParamView::Moment(span.to),
        ],
    }
}

/// What could not be done where the store fails to answer a question.
pub open spec fn failing(q: QuestionView) -> Seq<char> {
    match q {
        QuestionView::Channels => "cannot read channels"@,
        QuestionView::Now => "cannot read current usage"@,
        QuestionView::Usage { .. } => "cannot read usage"@,
        QuestionView::Circuit { .. } => "cannot look up a circuit"@,
        QuestionView::Points { .. } => "cannot read a series"@,
    }
}

impl Question {
    /// The query that asks this of the store.
    pub fn query(&self) -> (q: Query)
        requires
            self.valid(),
        ensures
            q.sql@ == sql_of(self@),
            store::param_views(q.params@) == params_of(self@),
    {
        let mut params: Vec<Param> = Vec::new();
        let mut sql: String;
        match self {
            Question::Channels => {
                sql = "SELECT ".to_owned();
                sql.append(LABEL);
                sql.append(
                    " AS label, c.device_name, c.channel_num, c.kind, c.name IS NOT NULL FROM channel c WHERE ",
                );
                sql.append(kind_sql(Kind::Circuits));
                sql.append(
                    " ORDER BY c.device_name, c.kind, length(c.channel_num), c.channel_num",
                );
            },
            Question::Now => {
                sql = "SELECT DISTINCT ON (r.device_gid, r.channel_num) ".to_owned();
                sql.append(LABEL);
                sql.append(
                    " AS label, r.kwh, r.instant FROM reading r JOIN channel c USING (device_gid, channel_num) WHERE r.scale = '1MIN' AND ",
                );
                sql.append(kind_sql(Kind::Circuits));
                sql.append(
                    " AND r.instant > now() - interval '30 minutes' ORDER BY r.device_gid, r.channel_num, r.instant DESC",
                );
            },
            Question::Usage { span, kind } => {
                sql = "SELECT ".to_owned();
                sql.append(LABEL);
                sql.append(
                    " AS label, sum(r.kwh) AS kwh FROM reading r JOIN channel c USING (device_gid, channel_num) WHERE r.scale = $1 AND ",
                );
                sql.append(kind_sql(*kind));
                sql.append(
                    " AND r.instant >= $2 AND r.instant < $3 GROUP BY label HAVING sum(r.kwh) > 0 ORDER BY kwh DESC",
                );
                params.push(Param::Text(scale_for(span).api_name().to_owned()));
                params.push(Param::Moment(span.from));
                params.push(Param::Moment(span.to));
            },
            Question::Circuit { query, .. } => {
                sql = "SELECT c.device_gid, c.channel_num, ".to_owned();
                sql.append(LABEL);
                sql.append(" AS label, c.kind, c.merged_into FROM channel c WHERE (");
                sql.append(LABEL);
                sql.append(
                    ") ILIKE $1 OR c.device_gid || '/' || c.channel_num = $2 ORDER BY label",
                );
                let mut pattern = "%".to_owned();
                pattern.append(query.as_str());
                pattern.append("%");
                params.push(Param::Text(pattern));
                params.push(Param::Text(query.clone()));
            },
            Question::Points { circuit, span, scale } => {
                sql = POINTS_SQL.to_owned();
                params.push(Param::Int(circuit.device_gid));
                params.push(Param::Text(circuit.channel_num.clone()));
                params.push(Param::Text(scale.api_name().to_owned()));
                params.push(Param::Moment(span.from));
                params.push(Param::Moment(span.to));
            },
        }
        assert(store::param_views(params@) =~= params_of(self@));
        Query { sql, params }
    }

    /// What is said where the store fails to answer, with what it said.
    pub fn failed(&self, cause: &str) -> (s: String)
        ensures
            s@ == failing(self@) + ": "@ + cause@,
    {
        let mut s = match self {
            Question::Channels => "cannot read channels".to_owned(),
            Question::Now => "cannot read current usage".to_owned(),
            Question::Usage { .. } => "cannot read usage".to_owned(),
            Question::Circuit { .. } => "cannot look up a circuit".to_owned(),
            Question::Points { .. } => "cannot read a series".to_owned(),
        };
        s.append(": ");
        s.append(cause);
        s
    }
}

/// A circuit that is measured, as the store gives it.
#[derive(Debug, PartialEq, Eq)]
pub struct ChannelRow {
    pub circuit: String,
    pub monitor: Option<String>,
    pub channel: String,
    pub kind: String,
    pub named: bool,
}

/// A circuit in the list of circuits.
pub open spec fn channel_view(r: ChannelRow) -> JsonView {
    JsonView::Object(
        seq![
            ("circuit"@, JsonView::Text(r.circuit@)),
            ("monitor"@, json::text_or_null(text::view_of(r.monitor))),
            ("channel"@, JsonView::Text(r.channel@)),
            ("kind"@, JsonView::Text(r.kind@)),
            ("named"@, JsonView::Bool(r.named)),
        ],
    )
}

/// The list of circuits.
pub open spec fn channels_view(rows: Seq<ChannelRow>) -> JsonView {
    JsonView::Object(
        seq![
            ("ok"@, JsonView::Bool(true)),
            ("count"@, JsonView::Int(rows.len() as int)),
            ("circuits"@, JsonView::List(rows.map_values(|r: ChannelRow| channel_view(r)))),
        ],
    )
}

fn channel_json(r: &ChannelRow) -> (j: Json)
    ensures
        j@ == channel_view(*r),
{
    let mut o = json::no_fields();
    json::put(&mut o, "circuit", json::text(r.circuit.as_str()));
    json::put(&mut o, "monitor", json::optional_text(&r.monitor));
    json::put(&mut o, "channel", json::text(r.channel.as_str()));
    json::put(&mut o, "kind", json::text(r.kind.as_str()));
    json::put(&mut o, "named", json::boolean(r.named));
    assert(json::fields(o@) =~= channel_view(*r)->Object_0);
    json::object(o)
}

/// The reply to what is measured.
pub fn channels(rows: &Vec<ChannelRow>) -> (j: Json)
    ensures
        j@ == channels_view(rows@),
{
    let mut circuits = json::no_items();
    let mut i: usize = 0;
    while i < rows.len()
        invariant
            i <= rows.len(),
            json::items(circuits@) =~= rows@.take(i as int).map_values(
                |r: ChannelRow| channel_view(r),
            ),
        decreases rows.len() - i,
    {
        json::add_item(&mut circuits, channel_json(&rows[i]));
        i = i + 1;
    }
    let mut o = json::no_fields();
    json::put(&mut o, "ok", json::boolean(true));
    json::put(&mut o, "count", json::count(rows.len()));
    json::put(&mut o, "circuits", json::list(circuits));
    proof {
        assert(rows@.take(rows@.len() as int) =~= rows@);
        assert(json::fields(o@) =~= channels_view(rows@)->Object_0);
    }
    json::object(o)
}

/// What a circuit was drawing at a moment: the power, and the power rounded to
/// a whole number of watts, each by the bits of its `double`.
#[derive(Debug, PartialEq, Eq)]
pub struct DrawRow {
    pub circuit: String,
    pub watts: u64,
    pub rounded: u64,
    pub moment: Instant,
}

/// Where a `double` of these bits stands in the total order of all of them:
/// positive numbers in the order of their bits, negative ones before them in
/// the opposite order.
pub open spec fn place(bits: u64) -> int {
    if bits < 0x8000_0000_0000_0000 {
        bits as int
    } else {
        0x7fff_ffff_ffff_ffff - bits
    }
}

/// Whether a `double` comes before another in that order.
fn smaller(a: u64, b: u64) -> (r: bool)
    ensures
        r == (place(a) < place(b)),
{
    if a < 0x8000_0000_0000_0000 {
        b < 0x8000_0000_0000_0000 && a < b
    } else {
        b < 0x8000_0000_0000_0000 || b < a
    }
}

/// Whether a circuit draws more than another.
pub open spec fn draws_more() -> spec_fn(DrawRow, DrawRow) -> bool {
    |a: DrawRow, b: DrawRow| place(b.watts) < place(a.watts)
}

/// Whether a circuit draws more than another.
fn more_drawn(a: &DrawRow, b: &DrawRow) -> (r: bool)
    ensures
        r == draws_more()(*a, *b),
{
    smaller(b.watts, a.watts)
}

/// The newest moment of any reading.
pub open spec fn newest(rows: Seq<DrawRow>) -> Option<Instant>
    decreases rows.len(),
{
    if rows.len() == 0 {
        None
    } else {
        match newest(rows.drop_last()) {
            Some(t) if rows.last().moment@ < t@ => Some(t),
            _ => Some(rows.last().moment),
        }
    }
}

pub const NOW_NOTE: &'static str =
    "Newest reading per circuit within the last 30 minutes. A circuit absent from \
     this list has not reported recently.";

/// A circuit in the list of what is drawn, with its moment as it is written.
pub open spec fn draw_view(r: DrawRow, stamp: Seq<char>) -> JsonView {
    JsonView::Object(
        seq![
            ("circuit"@, JsonView::Text(r.circuit@)),
            ("watts"@, JsonView::Real(r.rounded)),
            ("at"@, JsonView::Text(stamp)),
        ],
    )
}

/// Circuits in the list of what is drawn, each with its moment as it is written.
pub open spec fn draw_views(rows: Seq<DrawRow>, stamps: Seq<Seq<char>>) -> Seq<JsonView> {
    Seq::new(rows.len(), |i: int| draw_view(rows[i], stamps[i]))
}

/// The list of what is drawn, around circuits in their order and their moments
/// and the newest of these as they are written.
pub open spec fn now_view(
    rows: Seq<DrawRow>,
    stamps: Seq<Seq<char>>,
    as_of: Option<Seq<char>>,
) -> JsonView {
    JsonView::Object(
        seq![
            ("ok"@, JsonView::Bool(true)),
            ("unit"@, JsonView::Text("W"@)),
            ("as_of"@, json::text_or_null(as_of)),
            ("note"@, JsonView::Text(NOW_NOTE@)),
            ("count"@, JsonView::Int(rows.len() as int)),
            ("circuits"@, JsonView::List(draw_views(rows, stamps))),
        ],
    )
}

/// The moments of rows on a local clock, as they are written.
pub open spec fn draw_stamps(rows: Seq<DrawRow>, zone: Zone) -> Seq<Seq<char>> {
    rows.map_values(|r: DrawRow| r.moment.local_stamp(zone))
}

/// A moment on a local clock, as it is written, where there is one.
pub open spec fn stamp_of(t: Option<Instant>, zone: Zone) -> Option<Seq<char>> {
    match t {
        Some(t) => Some(t.local_stamp(zone)),
        None => None,
    }
}

fn draw_json(r: &DrawRow, stamp: &str) -> (j: Json)
    ensures
        j@ == draw_view(*r, stamp@),
{
    let mut o = json::no_fields();
    json::put(&mut o, "circuit", json::text(r.circuit.as_str()));
    json::put(&mut o, "watts", json::double(r.rounded));
    json::put(&mut o, "at", json::text(stamp));
    assert(json::fields(o@) =~= draw_view(*r, stamp@)->Object_0);
    json::object(o)
}

/// The reply to what is drawn now, of circuits in their order and their moments
/// and the newest of these as they are written.
pub fn now_told(rows: &Vec<DrawRow>, stamps: &Vec<String>, as_of: &Option<String>) -> (j: Json)
    requires
        stamps@.len() == rows@.len(),
    ensures
        j@ == now_view(rows@, text::texts(stamps@), text::view_of(*as_of)),
{
    let mut circuits = json::no_items();
    let mut i: usize = 0;
    while i < rows.len()
        invariant
            i <= rows.len(),
            stamps@.len() == rows@.len(),
            json::items(circuits@) =~= draw_views(rows@, text::texts(stamps@)).take(i as int),
        decreases rows.len() - i,
    {
        json::add_item(&mut circuits, draw_json(&rows[i], stamps[i].as_str()));
        i = i + 1;
    }
    let mut o = json::no_fields();
    json::put(&mut o, "ok", json::boolean(true));
    json::put(&mut o, "unit", json::text("W"));
    json::put(&mut o, "as_of", json::optional_text(as_of));
    json::put(&mut o, "note", json::text(NOW_NOTE));
    json::put(&mut o, "count", json::count(rows.len()));
    json::put(&mut o, "circuits", json::list(circuits));
    proof {
        let list = draw_views(rows@, text::texts(stamps@));
        assert(list.take(rows@.len() as int) =~= list);
        assert(json::fields(o@) =~= now_view(
            rows@,
            text::texts(stamps@),
            text::view_of(*as_of),
        )->Object_0);
    }
    json::object(o)
}

fn newest_of(rows: &Vec<DrawRow>) -> (latest: Option<Instant>)
    ensures
        latest == newest(rows@),
{
    let mut latest: Option<Instant> = None;
    let mut i: usize = 0;
    while i < rows.len()
        invariant
            i <= rows.len(),
            latest == newest(rows@.take(i as int)),
        decreases rows.len() - i,
    {
        assert(rows@.take(i + 1).drop_last() =~= rows@.take(i as int));
        latest = match latest {
            Some(t) if rows[i].moment.nanos < t.nanos => Some(t),
            _ => Some(rows[i].moment),
        };
        i = i + 1;
    }
    assert(rows@.take(rows@.len() as int) =~= rows@);
    latest
}

/// The moment of the newest reading is that of some reading, and no reading is
/// newer.
pub proof fn law_the_newest_reading_is_the_newest(rows: Seq<DrawRow>, i: int)
    requires
        0 <= i < rows.len(),
    ensures
        newest(rows) matches Some(t) && rows[i].moment@ <= t@ && exists|k: int|
            0 <= k < rows.len() && (#[trigger] rows[k]).moment == t,
    decreases rows.len(),
{
    let rest = rows.drop_last();
    if rest.len() == 0 {
        assert(newest(rest) is None);
        assert(newest(rows) == Some(rows[i].moment));
    } else {
        law_the_newest_reading_is_the_newest(rest, if i < rest.len() { i } else { 0 });
        let t = newest(rest)->0;
        let k = choose|k: int| 0 <= k < rest.len() && (#[trigger] rest[k]).moment == t;
        assert(rows[k].moment == t);
        assert(rows[rows.len() - 1].moment == rows.last().moment);
    }
}

/// The reply to what is drawn now: the largest draw first, circuits that draw
/// the same in the order they came.
pub fn now(rows: Vec<DrawRow>, zone: Zone) -> (j: Json)
    requires
        zone.valid(),
        forall|i: int| 0 <= i < rows@.len() ==> (#[trigger] rows@[i]).moment.valid(),
    ensures
        exists|sorted: Seq<DrawRow>| #[trigger]
            sort::sorted_from(sorted, rows@, draws_more()) && j@ == now_view(
                sorted,
                draw_stamps(sorted, zone),
                stamp_of(newest(rows@), zone),
            ),
{
    let ghost given = rows@;
    let latest = newest_of(&rows);
    let list = sort::sorted(rows, more_drawn, Ghost(draws_more()));
    proof {
        sort::lemma_sorted_holds_the_same(list@, given, draws_more());
        assert forall|k: int| 0 <= k < list@.len() implies (#[trigger] list@[k]).moment.valid() by {
            assert(list@.contains(list@[k]));
            let i = choose|i: int| 0 <= i < given.len() && given[i] == list@[k];
        }
        if given.len() > 0 {
            law_the_newest_reading_is_the_newest(given, 0);
        }
    }
    let mut stamps: Vec<String> = Vec::new();
    let mut i: usize = 0;
    while i < list.len()
        invariant
            i <= list.len(),
            zone.valid(),
            forall|k: int| 0 <= k < list@.len() ==> (#[trigger] list@[k]).moment.valid(),
            text::texts(stamps@) == draw_stamps(list@, zone).take(i as int),
        decreases list.len() - i,
    {
        let ghost was = stamps@;
        let stamp = at(list[i].moment, zone);
        stamps.push(stamp);
        proof {
            let all = draw_stamps(list@, zone);
            assert(text::texts(stamps@) =~= text::texts(was).push(stamp@));
            assert(all.take(i + 1) =~= all.take(i as int).push(all[i as int]));
        }
        i = i + 1;
    }
    let as_of = match latest {
        Some(t) => Some(at(t, zone)),
        None => None,
    };
    assert(text::texts(stamps@).len() == list@.len());
    assert(text::texts(stamps@) =~= draw_stamps(list@, zone));
    assert(text::view_of(as_of) == stamp_of(newest(given), zone));
    now_told(&list, &stamps, &as_of)
}

/// How many rows of so many are told.
pub open spec fn told(matched: int) -> int {
    if matched <= MAX_ROWS {
        matched
    } else {
        MAX_ROWS as int
    }
}

/// A circuit's energy over a period, as the bits of a `double` of kilowatt hours.
#[derive(Debug, PartialEq, Eq)]
pub struct TotalRow {
    pub circuit: String,
    pub kwh: u64,
}

/// The word for a kind.
pub open spec fn kind_word(kind: Kind) -> Seq<char> {
    match kind {
        Kind::Main => "main"@,
        Kind::Branch => "branch"@,
        Kind::Merged => "merged"@,
        Kind::Circuits => "circuits"@,
    }
}

/// A circuit in the list of what was used.
pub open spec fn total_view(r: TotalRow) -> JsonView {
    JsonView::Object(
        seq![("circuit"@, JsonView::Text(r.circuit@)), ("kwh"@, JsonView::Real(r.kwh))],
    )
}

/// The list of what was used over a period, its name and its two ends as they
/// are written.
pub open spec fn usage_view(
    period: Seq<char>,
    from: Seq<char>,
    to: Seq<char>,
    scale: Scale,
    kind: Kind,
    rows: Seq<TotalRow>,
    total: u64,
) -> JsonView {
    let count = told(rows.len() as int);
    JsonView::Object(
        seq![
            ("ok"@, JsonView::Bool(true)),
            ("period"@, JsonView::Text(period)),
            ("from"@, JsonView::Text(from)),
            ("to"@, JsonView::Text(to)),
            ("resolution"@, JsonView::Text(scale.name())),
            ("kind"@, JsonView::Text(kind_word(kind))),
            ("total_kwh"@, JsonView::Real(total)),
            ("unit"@, JsonView::Text("kWh"@)),
            ("count"@, JsonView::Int(count)),
            ("matched"@, JsonView::Int(rows.len() as int)),
            ("truncated"@, JsonView::Bool(rows.len() > count)),
            (
                "circuits"@,
                JsonView::List(rows.take(count).map_values(|r: TotalRow| total_view(r))),
            ),
        ],
    )
}

fn total_json(r: &TotalRow) -> (j: Json)
    ensures
        j@ == total_view(*r),
{
    let mut o = json::no_fields();
    json::put(&mut o, "circuit", json::text(r.circuit.as_str()));
    json::put(&mut o, "kwh", json::double(r.kwh));
    assert(json::fields(o@) =~= total_view(*r)->Object_0);
    json::object(o)
}

/// The reply to what was used over a period, its name and its two ends as they
/// are written: the first rows, and how many there were. `total` is the sum over
/// all of them.
pub fn usage_told(
    period: &str,
    from: &str,
    to: &str,
    scale: Scale,
    kind: Kind,
    rows: &Vec<TotalRow>,
    total: u64,
) -> (j: Json)
    ensures
        j@ == usage_view(period@, from@, to@, scale, kind, rows@, total),
{
    let matched = rows.len();
    let mut circuits = json::no_items();
    let mut i: usize = 0;
    while i < matched && i < MAX_ROWS
        invariant
            i <= matched == rows.len(),
            i <= MAX_ROWS,
            json::items(circuits@) =~= rows@.take(i as int).map_values(
                |r: TotalRow| total_view(r),
            ),
        decreases matched - i,
    {
        json::add_item(&mut circuits, total_json(&rows[i]));
        i = i + 1;
    }
    let word = match kind {
        Kind::Main => "main",
        Kind::Branch => "branch",
        Kind::Merged => "merged",
        Kind::Circuits => "circuits",
    };
    let mut o = json::no_fields();
    json::put(&mut o, "ok", json::boolean(true));
    json::put(&mut o, "period", json::text(period));
    json::put(&mut o, "from", json::text(from));
    json::put(&mut o, "to", json::text(to));
    json::put(&mut o, "resolution", json::text(scale.api_name()));
    json::put(&mut o, "kind", json::text(word));
    json::put(&mut o, "total_kwh", json::double(total));
    json::put(&mut o, "unit", json::text("kWh"));
    json::put(&mut o, "count", json::count(i));
    json::put(&mut o, "matched", json::count(matched));
    json::put(&mut o, "truncated", json::boolean(matched > i));
    json::put(&mut o, "circuits", json::list(circuits));
    assert(json::fields(o@) =~= usage_view(
        period@,
        from@,
        to@,
        scale,
        kind,
        rows@,
        total,
    )->Object_0);
    json::object(o)
}

/// The reply to what was used over a period, told on the local clock.
pub fn usage(span: &Span, kind: Kind, zone: Zone, rows: &Vec<TotalRow>, total: u64) -> (j: Json)
    requires
        span.valid(),
        zone.valid(),
    ensures
        j@ == usage_view(
            span.named@,
            span.from.local_stamp(zone),
            span.to.local_stamp(zone),
            finest(span@),
            kind,
            rows@,
            total,
        ),
{
    let from = at(span.from, zone);
    let to = at(span.to, zone);
    usage_told(span.named, from.as_str(), to.as_str(), scale_for(span), kind, rows, total)
}

/// A circuit by its monitor and number.
pub open spec fn channel_text(device_gid: i64, channel_num: Seq<char>) -> Seq<char> {
    text::signed_digits(device_gid as int) + "/"@ + channel_num
}

fn channel_name(device_gid: i64, channel_num: &str) -> (s: String)
    ensures
        s@ == channel_text(device_gid, channel_num@),
{
    let mut s = text::signed_decimal(device_gid);
    s.append("/");
    s.append(channel_num);
    s
}

/// The reply where nothing is called what was typed, as it is quoted.
pub open spec fn no_such_circuit(quoted: Seq<char>) -> JsonView {
    JsonView::Object(
        seq![
            ("ok"@, JsonView::Bool(false)),
            ("error"@, JsonView::Text("no-such-circuit"@)),
            (
                "message"@,
                JsonView::Text(
                    "Nothing here is called "@ + quoted + ". `channels` lists them."@,
                ),
            ),
        ],
    )
}

/// One of several circuits that a name may mean.
pub open spec fn candidate_view(m: Match) -> JsonView {
    JsonView::Object(
        seq![
            ("circuit"@, JsonView::Text(m.label@)),
            ("channel"@, JsonView::Text(channel_text(m.device_gid, m.channel_num@))),
        ],
    )
}

/// The reply where several circuits may be meant by what was typed, as it is
/// quoted.
pub open spec fn ambiguous(quoted: Seq<char>, found: Seq<Match>) -> JsonView {
    JsonView::Object(
        seq![
            ("ok"@, JsonView::Bool(false)),
            ("error"@, JsonView::Text("ambiguous"@)),
            (
                "message"@,
                JsonView::Text(
                    text::digits(found.len()) + " circuits match "@ + quoted + "."@,
                ),
            ),
            ("candidates"@, JsonView::List(found.map_values(|m: Match| candidate_view(m)))),
        ],
    )
}

/// What follows from the circuits that a name may mean: a reply where it is
/// none or several of them, and a question for the readings where it is one.
pub open spec fn resolved(
    query: Seq<char>,
    span: SpanView,
    scale: Scale,
    matches: Seq<Match>,
) -> StepView {
    let found = narrowed(matches, query);
    if found.len() == 0 {
        StepView::Reply(no_such_circuit(text::debug_text(query)))
    } else if found.len() > 1 {
        StepView::Reply(ambiguous(text::debug_text(query), found))
    } else {
        StepView::Ask(
            QuestionView::Points {
                circuit: CircuitView {
                    device_gid: found[0].device_gid,
                    channel_num: found[0].channel_num@,
                    label: found[0].label@,
                },
                span,
                scale,
            },
        )
    }
}

fn candidate_json(m: &Match) -> (j: Json)
    ensures
        j@ == candidate_view(*m),
{
    let mut o = json::no_fields();
    json::put(&mut o, "circuit", json::text(m.label.as_str()));
    json::put(
        &mut o,
        "channel",
        json::text(channel_name(m.device_gid, m.channel_num.as_str()).as_str()),
    );
    assert(json::fields(o@) =~= candidate_view(*m)->Object_0);
    json::object(o)
}

/// The reply where several circuits may be meant by what was typed, as it is
/// quoted.
pub fn several_match(quoted: &str, found: &Vec<Match>) -> (j: Json)
    ensures
        j@ == ambiguous(quoted@, found@),
{
    let mut candidates = json::no_items();
    let mut i: usize = 0;
    while i < found.len()
        invariant
            i <= found.len(),
            json::items(candidates@) =~= found@.take(i as int).map_values(
                |m: Match| candidate_view(m),
            ),
        decreases found.len() - i,
    {
        json::add_item(&mut candidates, candidate_json(&found[i]));
        i = i + 1;
    }
    let mut message = text::decimal(found.len() as u64);
    message.append(" circuits match ");
    message.append(quoted);
    message.append(".");
    let mut o = json::no_fields();
    json::put(&mut o, "ok", json::boolean(false));
    json::put(&mut o, "error", json::text("ambiguous"));
    json::put(&mut o, "message", json::text(message.as_str()));
    json::put(&mut o, "candidates", json::list(candidates));
    proof {
        assert(found@.take(found@.len() as int) =~= found@);
        assert(json::fields(o@) =~= ambiguous(quoted@, found@)->Object_0);
    }
    json::object(o)
}

/// The reply where nothing is called what was typed, as it is quoted.
pub fn nothing_called(quoted: &str) -> (j: Json)
    ensures
        j@ == no_such_circuit(quoted@),
{
    let mut message = "Nothing here is called ".to_owned();
    message.append(quoted);
    message.append(". `channels` lists them.");
    let mut o = json::no_fields();
    json::put(&mut o, "ok", json::boolean(false));
    json::put(&mut o, "error", json::text("no-such-circuit"));
    json::put(&mut o, "message", json::text(message.as_str()));
    assert(json::fields(o@) =~= no_such_circuit(quoted@)->Object_0);
    json::object(o)
}

/// Decides which circuit a name means, and says so rather than picking one
/// where it may mean several.
pub fn resolve(query: &str, span: &Span, scale: Scale, matches: &Vec<Match>) -> (step: Step)
    ensures
        step@ == resolved(query@, span@, scale, matches@),
        span.valid() ==> step.valid(),
{
    let found = narrow(matches.as_slice(), query);
    if found.len() == 0 {
        return Step::Reply(nothing_called(text::quoted(query).as_str()));
    }
    if found.len() > 1 {
        return Step::Reply(several_match(text::quoted(query).as_str(), &found));
    }
    Step::Ask(
        Question::Points {
            circuit: Circuit {
                device_gid: found[0].device_gid,
                channel_num: found[0].channel_num.clone(),
                label: found[0].label.clone(),
            },
            span: *span,
            scale,
        },
    )
}

/// One reading of a circuit: its energy in kilowatt hours and its power in
/// whole watts, each by the bits of its `double`.
#[derive(Debug, PartialEq, Eq)]
pub struct PointRow {
    pub moment: Instant,
    pub kwh: u64,
    pub watts: u64,
}

/// A reading in the list of a circuit's readings, with its moment as it is
/// written.
pub open spec fn point_view(r: PointRow, stamp: Seq<char>) -> JsonView {
    JsonView::Object(
        seq![
            ("at"@, JsonView::Text(stamp)),
            ("kwh"@, JsonView::Real(r.kwh)),
            ("watts"@, JsonView::Real(r.watts)),
        ],
    )
}

/// The first readings of a list, each with its moment as it is written.
pub open spec fn point_views(
    rows: Seq<PointRow>,
    stamps: Seq<Seq<char>>,
    count: int,
) -> Seq<JsonView> {
    Seq::new(count as nat, |i: int| point_view(rows[i], stamps[i]))
}

/// The list of a circuit's readings, the name of its period and the moments of
/// those that are told as they are written.
pub open spec fn series_view(
    circuit: CircuitView,
    period: Seq<char>,
    scale: Scale,
    rows: Seq<PointRow>,
    stamps: Seq<Seq<char>>,
    total: u64,
) -> JsonView {
    let count = told(rows.len() as int);
    JsonView::Object(
        seq![
            ("ok"@, JsonView::Bool(true)),
            ("circuit"@, JsonView::Text(circuit.label)),
            (
                "channel"@,
                JsonView::Text(channel_text(circuit.device_gid, circuit.channel_num)),
            ),
            ("period"@, JsonView::Text(period)),
            ("resolution"@, JsonView::Text(scale.name())),
            ("total_kwh"@, JsonView::Real(total)),
            ("count"@, JsonView::Int(count)),
            ("matched"@, JsonView::Int(rows.len() as int)),
            ("truncated"@, JsonView::Bool(rows.len() > count)),
            ("points"@, JsonView::List(point_views(rows, stamps, count))),
        ],
    )
}

/// The moments of the rows that are told, on a local clock, as they are written.
pub open spec fn point_stamps(rows: Seq<PointRow>, zone: Zone) -> Seq<Seq<char>> {
    rows.take(told(rows.len() as int)).map_values(|r: PointRow| r.moment.local_stamp(zone))
}

fn point_json(r: &PointRow, stamp: &str) -> (j: Json)
    ensures
        j@ == point_view(*r, stamp@),
{
    let mut o = json::no_fields();
    json::put(&mut o, "at", json::text(stamp));
    json::put(&mut o, "kwh", json::double(r.kwh));
    json::put(&mut o, "watts", json::double(r.watts));
    assert(json::fields(o@) =~= point_view(*r, stamp@)->Object_0);
    json::object(o)
}

/// The reply to one circuit's readings, the name of the period and the moments
/// of those that are told as they are written: the first of them, and how many
/// there were. `total` is the sum over all of them.
pub fn series_told(
    circuit: &Circuit,
    period: &str,
    scale: Scale,
    rows: &Vec<PointRow>,
    stamps: &Vec<String>,
    total: u64,
) -> (j: Json)
    requires
        stamps@.len() == told(rows@.len() as int),
    ensures
        j@ == series_view(circuit@, period@, scale, rows@, text::texts(stamps@), total),
{
    let matched = rows.len();
    let count = stamps.len();
    let ghost all = point_views(rows@, text::texts(stamps@), count as int);
    let mut points = json::no_items();
    let mut i: usize = 0;
    while i < count
        invariant
            i <= count == stamps@.len(),
            count == told(rows@.len() as int),
            all == point_views(rows@, text::texts(stamps@), count as int),
            json::items(points@) =~= all.take(i as int),
        decreases count - i,
    {
        json::add_item(&mut points, point_json(&rows[i], stamps[i].as_str()));
        i = i + 1;
    }
    assert(all.take(count as int) =~= all);
    let mut o = json::no_fields();
    json::put(&mut o, "ok", json::boolean(true));
    json::put(&mut o, "circuit", json::text(circuit.label.as_str()));
    json::put(
        &mut o,
        "channel",
        json::text(channel_name(circuit.device_gid, circuit.channel_num.as_str()).as_str()),
    );
    json::put(&mut o, "period", json::text(period));
    json::put(&mut o, "resolution", json::text(scale.api_name()));
    json::put(&mut o, "total_kwh", json::double(total));
    json::put(&mut o, "count", json::count(count));
    json::put(&mut o, "matched", json::count(matched));
    json::put(&mut o, "truncated", json::boolean(matched > count));
    json::put(&mut o, "points", json::list(points));
    assert(json::fields(o@) =~= series_view(
        circuit@,
        period@,
        scale,
        rows@,
        text::texts(stamps@),
        total,
    )->Object_0);
    json::object(o)
}

/// The reply to one circuit's readings, told on the local clock.
pub fn series(
    circuit: &Circuit,
    span: &Span,
    scale: Scale,
    zone: Zone,
    rows: &Vec<PointRow>,
    total: u64,
) -> (j: Json)
    requires
        zone.valid(),
        forall|i: int| 0 <= i < rows@.len() ==> (#[trigger] rows@[i]).moment.valid(),
    ensures
        j@ == series_view(
            circuit@,
            span.named@,
            scale,
            rows@,
            point_stamps(rows@, zone),
            total,
        ),
{
    let mut stamps: Vec<String> = Vec::new();
    let mut i: usize = 0;
    while i < rows.len() && i < MAX_ROWS
        invariant
            i <= rows.len(),
            i <= MAX_ROWS,
            zone.valid(),
            forall|k: int| 0 <= k < rows@.len() ==> (#[trigger] rows@[k]).moment.valid(),
            text::texts(stamps@) == point_stamps(rows@, zone).take(i as int),
        decreases rows.len() - i,
    {
        let ghost was = stamps@;
        let stamp = at(rows[i].moment, zone);
        stamps.push(stamp);
        proof {
            let all = point_stamps(rows@, zone);
            assert(text::texts(stamps@) =~= text::texts(was).push(stamp@));
            assert(all.take(i + 1) =~= all.take(i as int).push(all[i as int]));
        }
        i = i + 1;
    }
    assert(text::texts(stamps@).len() == told(rows@.len() as int));
    assert(text::texts(stamps@) =~= point_stamps(rows@, zone));
    series_told(circuit, span.named, scale, rows, &stamps, total)
}

/// Whether an answer is a page of a longer list exactly where it says so: it
/// tells `count` of `matched` rows, no more than fit, and is `truncated` where
/// those are not all.
pub open spec fn tells_its_length(
    answer: JsonView,
    list: Seq<char>,
    matched: int,
    count: int,
) -> bool {
    &&& answer is Object
    &&& answer->Object_0.contains(("matched"@, JsonView::Int(matched)))
    &&& answer->Object_0.contains(("count"@, JsonView::Int(count)))
    &&& answer->Object_0.contains(("truncated"@, JsonView::Bool(count < matched)))
    &&& exists|rows: Seq<JsonView>|
        rows.len() == count && #[trigger] answer->Object_0.contains((list, JsonView::List(rows)))
    &&& count <= MAX_ROWS
    &&& count < matched ==> count == MAX_ROWS
}

/// A list of what was used is never silently short.
pub proof fn law_usage_tells_its_length(
    period: Seq<char>,
    from: Seq<char>,
    to: Seq<char>,
    scale: Scale,
    kind: Kind,
    rows: Seq<TotalRow>,
    total: u64,
)
    ensures
        tells_its_length(
            usage_view(period, from, to, scale, kind, rows, total),
            "circuits"@,
            rows.len() as int,
            told(rows.len() as int),
        ),
{
    let o = usage_view(period, from, to, scale, kind, rows, total)->Object_0;
    assert(o[8] == ("count"@, JsonView::Int(told(rows.len() as int))));
    assert(o[9] == ("matched"@, JsonView::Int(rows.len() as int)));
    assert(o[10] == ("truncated"@, JsonView::Bool(told(rows.len() as int) < rows.len())));
    let list = rows.take(told(rows.len() as int)).map_values(|r: TotalRow| total_view(r));
    assert(o[11] == ("circuits"@, JsonView::List(list)));
    assert(o.contains(("circuits"@, JsonView::List(list))));
}

/// A list of a circuit's readings is never silently short.
pub proof fn law_series_tells_its_length(
    circuit: CircuitView,
    period: Seq<char>,
    scale: Scale,
    rows: Seq<PointRow>,
    stamps: Seq<Seq<char>>,
    total: u64,
)
    ensures
        tells_its_length(
            series_view(circuit, period, scale, rows, stamps, total),
            "points"@,
            rows.len() as int,
            told(rows.len() as int),
        ),
{
    let o = series_view(circuit, period, scale, rows, stamps, total)->Object_0;
    assert(o[6] == ("count"@, JsonView::Int(told(rows.len() as int))));
    assert(o[7] == ("matched"@, JsonView::Int(rows.len() as int)));
    assert(o[8] == ("truncated"@, JsonView::Bool(told(rows.len() as int) < rows.len())));
    let list = point_views(rows, stamps, told(rows.len() as int));
    assert(o[9] == ("points"@, JsonView::List(list)));
    assert(o.contains(("points"@, JsonView::List(list))));
}

proof fn lemma_one_passes(s: Seq<Match>, p: spec_fn(Match) -> bool) -> (k: int)
    requires
        s.filter(p).len() == 1,
    ensures
        0 <= k < s.len(),
        p(s[k]),
        s.filter(p)[0] == s[k],
        forall|i: int| 0 <= i < s.len() && i != k ==> !p(#[trigger] s[i]),
    decreases s.len(),
{
    reveal(Seq::filter);
    let rest = s.drop_last();
    if p(s.last()) {
        assert(rest.filter(p).len() == 0);
        assert forall|i: int| 0 <= i < s.len() - 1 implies !p(#[trigger] s[i]) by {
            if p(s[i]) {
                assert(rest[i] == s[i]);
                rest.lemma_filter_contains(p, i);
            }
        }
        s.len() - 1
    } else {
        let k = lemma_one_passes(rest, p);
        assert forall|i: int| 0 <= i < s.len() && i != k implies !p(#[trigger] s[i]) by {
            if i < s.len() - 1 {
                assert(rest[i] == s[i]);
            }
        }
        k
    }
}

/// Where no candidate is called exactly what was typed, every candidate counts, and
/// where some are, those and no others. Of these all are left, in the order they
/// were offered, unless one is a merged circuit and every other a branch on its
/// monitor that belongs to a merge: then the merged circuit alone is left.
pub proof fn law_every_candidate_is_left_but_for_two_reasons(
    matches: Seq<Match>,
    query: Seq<char>,
    meant: Seq<Match>,
)
    requires
        (forall|i: int|
            0 <= i < matches.len() ==> !text::same_letters(
                (#[trigger] matches[i]).label@,
                text::trimmed(query),
            )) ==> meant == matches,
        (exists|i: int|
            0 <= i < matches.len() && text::same_letters(
                (#[trigger] matches[i]).label@,
                text::trimmed(query),
            )) ==> meant == matches.filter(
            |m: Match| text::same_letters(m.label@, text::trimmed(query)),
        ),
    ensures
        (forall|k: int|
            0 <= k < meant.len() && (#[trigger] meant[k]).kind@ == "merged"@ ==> exists|i: int|
                0 <= i < meant.len() && i != k && !((#[trigger] meant[i]).kind@ == "branch"@
                    && meant[i].merged_into is Some && meant[i].device_gid
                    == meant[k].device_gid)) ==> narrowed(matches, query) == meant,
        forall|k: int|
            0 <= k < meant.len() && (#[trigger] meant[k]).kind@ == "merged"@ && (forall|i: int|
                0 <= i < meant.len() && i != k ==> (#[trigger] meant[i]).kind@ == "branch"@
                    && meant[i].merged_into is Some && meant[i].device_gid == meant[k].device_gid)
                ==> narrowed(matches, query) == seq![meant[k]],
{
    let p = |m: Match| named_exactly(m, query);
    let q = |m: Match| is_merged(m);
    assert(p =~= (|m: Match| text::same_letters(m.label@, text::trimmed(query))));
    if exists|i: int|
        0 <= i < matches.len() && text::same_letters(
            (#[trigger] matches[i]).label@,
            text::trimmed(query),
        ) {
        let i = choose|i: int|
            0 <= i < matches.len() && text::same_letters(
                (#[trigger] matches[i]).label@,
                text::trimmed(query),
            );
        matches.lemma_filter_contains(p, i);
        assert(matches.filter(p).len() > 0);
    } else {
        sort::lemma_filter_none(matches, p);
    }
    assert(pool(matches, query) == meant);
    if one_circuit(meant) {
        let k = lemma_one_passes(meant, q);
        assert(meant[k].kind@ == "merged"@);
        assert forall|i: int| 0 <= i < meant.len() && i != k implies (
        #[trigger] meant[i]).kind@ == "branch"@ && meant[i].merged_into is Some
            && meant[i].device_gid == meant[k].device_gid by {
            assert(!q(meant[i]));
            assert(is_leg(meant[i], merged_of(meant)[0].device_gid));
        }
    }
    assert forall|k: int|
        0 <= k < meant.len() && (#[trigger] meant[k]).kind@ == "merged"@ && (forall|i: int|
            0 <= i < meant.len() && i != k ==> (#[trigger] meant[i]).kind@ == "branch"@
                && meant[i].merged_into is Some && meant[i].device_gid == meant[k].device_gid)
        implies narrowed(matches, query) == seq![meant[k]] by {
        assert forall|i: int| 0 <= i < meant.len() && i != k implies is_leg(
            #[trigger] meant[i],
            meant[k].device_gid,
        ) by {
        }
        lemma_only_merged(meant, k);
        assert(one_circuit(meant)) by {
            assert forall|i: int| 0 <= i < meant.len() && !is_merged(#[trigger] meant[i]) implies
                is_leg(meant[i], merged_of(meant)[0].device_gid) by {
                assert(i != k);
            }
        }
    }
}

/// What follows of a name goes by how many candidates are left: none is no such
/// circuit, several are all offered to choose from, and one is asked for its
/// readings, over the period and at the scale of the question.
pub proof fn law_a_name_is_asked_back_unless_it_means_one(
    query: Seq<char>,
    span: SpanView,
    scale: Scale,
    matches: Seq<Match>,
    i: int,
)
    ensures
        ({
            let left = narrowed(matches, query);
            let step = resolved(query, span, scale, matches);
            let o = step->Reply_0->Object_0;
            &&& left.len() == 0 ==> {
                &&& step is Reply
                &&& json::field(o, "ok"@) == Some(JsonView::Bool(false))
                &&& json::field(o, "error"@) == Some(JsonView::Text("no-such-circuit"@))
                &&& json::field(o, "message"@) == Some(
                    JsonView::Text(
                        "Nothing here is called "@ + text::debug_text(query)
                            + ". `channels` lists them."@,
                    ),
                )
            }
            &&& left.len() > 1 ==> {
                let offered = json::field(o, "candidates"@)->0->List_0;
                &&& step is Reply
                &&& json::field(o, "ok"@) == Some(JsonView::Bool(false))
                &&& json::field(o, "error"@) == Some(JsonView::Text("ambiguous"@))
                &&& json::field(o, "message"@) == Some(
                    JsonView::Text(
                        text::digits(left.len()) + " circuits match "@ + text::debug_text(query)
                            + "."@,
                    ),
                )
                &&& json::field(o, "candidates"@) == Some(JsonView::List(offered))
                &&& offered.len() == left.len()
                &&& 0 <= i < left.len() ==> offered[i] == JsonView::Object(
                    seq![
                        ("circuit"@, JsonView::Text(left[i].label@)),
                        (
                            "channel"@,
                            JsonView::Text(
                                text::signed_digits(left[i].device_gid as int) + "/"@
                                    + left[i].channel_num@,
                            ),
                        ),
                    ],
                )
            }
            &&& left.len() == 1 ==> step == StepView::Ask(
                QuestionView::Points {
                    circuit: CircuitView {
                        device_gid: left[0].device_gid,
                        channel_num: left[0].channel_num@,
                        label: left[0].label@,
                    },
                    span,
                    scale,
                },
            )
        }),
{
    reveal_strlit("ok");
    reveal_strlit("error");
    reveal_strlit("message");
    reveal_strlit("candidates");
    assert("ok"@.len() == 2 && "error"@.len() == 5 && "message"@.len() == 7 && "candidates"@.len()
        == 10);
    let left = narrowed(matches, query);
    let o = resolved(query, span, scale, matches)->Reply_0->Object_0;
    if left.len() != 1 {
        json::lemma_field_at(o, 0);
        json::lemma_field_at(o, 1);
        json::lemma_field_at(o, 2);
        if left.len() > 1 {
            json::lemma_field_at(o, 3);
        }
    }
}

/// A question about usage, the newest minutes or the circuits, and one about a
/// circuit, is put to the store as it was asked; only the description is told at
/// once.
pub proof fn law_a_request_becomes_its_own_question(request: RequestView)
    ensures
        request is Channels ==> first_step(request) == StepView::Ask(QuestionView::Channels),
        request is Now ==> first_step(request) == StepView::Ask(QuestionView::Now),
        request matches RequestView::Usage { span, kind } ==> first_step(request) == StepView::Ask(
            QuestionView::Usage { span, kind },
        ),
        request matches RequestView::Series { query, span, scale } ==> first_step(request)
            == StepView::Ask(QuestionView::Circuit { query, span, scale }),
        request is Describe ==> first_step(request) == StepView::Reply(agent::described()),
{
}

/// A sum over a period is made of minutes where those are at most two thousand, or
/// else of quarter-hours, or else of hours, or else of days. A period counts at
/// least a second.
pub proof fn law_a_sum_scans_two_thousand_points_at_most(span: SpanView, seconds: int)
    requires
        span.to - span.from >= 1_000_000_000 ==> 0 <= span.to - span.from - seconds
            * 1_000_000_000 < 1_000_000_000,
        span.to - span.from < 1_000_000_000 ==> seconds == 1,
    ensures
        finest(span) == (if seconds < 2001 * 60 {
            Scale::Minute
        } else if seconds < 2001 * 900 {
            Scale::QuarterHour
        } else if seconds < 2001 * 3600 {
            Scale::Hour
        } else {
            Scale::Day
        }),
{
    time::law_a_fraction_of_a_second_is_dropped(span.to - span.from);
    assert(length_of(span) == seconds);
}

proof fn lemma_fields_differ()
    ensures
        "ok"@.len() == 2 && "ok"@[0] == 'o',
        "to"@.len() == 2 && "to"@[0] == 't',
        "at"@.len() == 2 && "at"@[0] == 'a',
        "kwh"@.len() == 3 && "kwh"@[0] == 'k',
        "from"@.len() == 4 && "from"@[0] == 'f',
        "kind"@.len() == 4 && "kind"@[0] == 'k',
        "unit"@.len() == 4 && "unit"@[0] == 'u',
        "note"@.len() == 4 && "note"@[0] == 'n',
        "count"@.len() == 5 && "count"@[0] == 'c',
        "as_of"@.len() == 5 && "as_of"@[0] == 'a',
        "named"@.len() == 5 && "named"@[0] == 'n',
        "watts"@.len() == 5 && "watts"@[0] == 'w',
        "period"@.len() == 6 && "period"@[1] == 'e',
        "points"@.len() == 6 && "points"@[1] == 'o',
        "circuit"@.len() == 7 && "circuit"@[0] == 'c' && "circuit"@[1] == 'i',
        "channel"@.len() == 7 && "channel"@[0] == 'c' && "channel"@[1] == 'h',
        "matched"@.len() == 7 && "matched"@[0] == 'm' && "matched"@[1] == 'a',
        "monitor"@.len() == 7 && "monitor"@[0] == 'm' && "monitor"@[1] == 'o',
        "circuits"@.len() == 8,
        "total_kwh"@.len() == 9 && "total_kwh"@[1] == 'o',
        "truncated"@.len() == 9 && "truncated"@[1] == 'r',
        "resolution"@.len() == 10,
{
    reveal_strlit("ok");
    reveal_strlit("to");
    reveal_strlit("at");
    reveal_strlit("kwh");
    reveal_strlit("from");
    reveal_strlit("kind");
    reveal_strlit("unit");
    reveal_strlit("note");
    reveal_strlit("count");
    reveal_strlit("as_of");
    reveal_strlit("named");
    reveal_strlit("watts");
    reveal_strlit("period");
    reveal_strlit("points");
    reveal_strlit("circuit");
    reveal_strlit("channel");
    reveal_strlit("matched");
    reveal_strlit("monitor");
    reveal_strlit("circuits");
    reveal_strlit("total_kwh");
    reveal_strlit("truncated");
    reveal_strlit("resolution");
}

/// The list of circuits tells how many there are, and each as the store gave it, in
/// the order it came.
pub proof fn law_each_circuit_is_told_as_it_came(rows: Seq<ChannelRow>, i: int)
    ensures
        ({
            let o = channels_view(rows)->Object_0;
            let list = json::field(o, "circuits"@)->0->List_0;
            &&& channels_view(rows) is Object
            &&& json::field(o, "ok"@) == Some(JsonView::Bool(true))
            &&& json::field(o, "count"@) == Some(JsonView::Int(rows.len() as int))
            &&& json::field(o, "circuits"@) == Some(JsonView::List(list))
            &&& list.len() == rows.len()
            &&& 0 <= i < rows.len() ==> {
                let c = list[i]->Object_0;
                &&& list[i] is Object
                &&& json::field(c, "circuit"@) == Some(JsonView::Text(rows[i].circuit@))
                &&& json::field(c, "monitor"@) == Some(
                    match rows[i].monitor {
                        Some(s) => JsonView::Text(s@),
                        None => JsonView::Null,
                    },
                )
                &&& json::field(c, "channel"@) == Some(JsonView::Text(rows[i].channel@))
                &&& json::field(c, "kind"@) == Some(JsonView::Text(rows[i].kind@))
                &&& json::field(c, "named"@) == Some(JsonView::Bool(rows[i].named))
            }
        }),
{
    lemma_fields_differ();
    let o = channels_view(rows)->Object_0;
    json::lemma_field_at(o, 0);
    json::lemma_field_at(o, 1);
    json::lemma_field_at(o, 2);
    if 0 <= i < rows.len() {
        let c = channel_view(rows[i])->Object_0;
        json::lemma_field_at(c, 0);
        json::lemma_field_at(c, 1);
        json::lemma_field_at(c, 2);
        json::lemma_field_at(c, 3);
        json::lemma_field_at(c, 4);
    }
}

/// The list of what is drawn tells the unit, how many circuits there are and the
/// moment of the newest reading, and each circuit with its own watts and moment.
pub proof fn law_each_draw_is_told_with_its_moment(
    rows: Seq<DrawRow>,
    stamps: Seq<Seq<char>>,
    as_of: Option<Seq<char>>,
    i: int,
)
    ensures
        ({
            let told = now_view(rows, stamps, as_of);
            let o = told->Object_0;
            let list = json::field(o, "circuits"@)->0->List_0;
            &&& told is Object
            &&& json::field(o, "ok"@) == Some(JsonView::Bool(true))
            &&& json::field(o, "unit"@) == Some(JsonView::Text("W"@))
            &&& json::field(o, "as_of"@) == Some(
                match as_of {
                    Some(s) => JsonView::Text(s),
                    None => JsonView::Null,
                },
            )
            &&& json::field(o, "note"@) == Some(
                JsonView::Text(
                    "Newest reading per circuit within the last 30 minutes. A circuit absent from this list has not reported recently."@,
                ),
            )
            &&& json::field(o, "count"@) == Some(JsonView::Int(rows.len() as int))
            &&& json::field(o, "circuits"@) == Some(JsonView::List(list))
            &&& list.len() == rows.len()
            &&& 0 <= i < rows.len() ==> {
                let c = list[i]->Object_0;
                &&& list[i] is Object
                &&& json::field(c, "circuit"@) == Some(JsonView::Text(rows[i].circuit@))
                &&& json::field(c, "watts"@) == Some(JsonView::Real(rows[i].rounded))
                &&& json::field(c, "at"@) == Some(JsonView::Text(stamps[i]))
            }
        }),
{
    lemma_fields_differ();
    let o = now_view(rows, stamps, as_of)->Object_0;
    json::lemma_field_at(o, 0);
    json::lemma_field_at(o, 1);
    json::lemma_field_at(o, 2);
    json::lemma_field_at(o, 3);
    json::lemma_field_at(o, 4);
    json::lemma_field_at(o, 5);
    if 0 <= i < rows.len() {
        let c = draw_view(rows[i], stamps[i])->Object_0;
        json::lemma_field_at(c, 0);
        json::lemma_field_at(c, 1);
        json::lemma_field_at(c, 2);
    }
}

/// The moments that go with what is drawn are those of the rows themselves, on the
/// local clock.
pub proof fn law_each_draw_has_its_own_moment(
    rows: Seq<DrawRow>,
    zone: Zone,
    i: int,
    t: Option<Instant>,
)
    ensures
        draw_stamps(rows, zone).len() == rows.len(),
        0 <= i < rows.len() ==> draw_stamps(rows, zone)[i] == rows[i].moment.local_stamp(zone),
        t is None ==> stamp_of(t, zone) is None,
        t matches Some(t) ==> stamp_of(Some(t), zone) == Some(t.local_stamp(zone)),
{
}

/// A circuit draws more than another where its power is the larger number: of two
/// numbers that are not negative by their bits, of two negative ones the other way
/// round, and a number that is not negative before a negative one.
pub proof fn law_the_larger_draw_comes_first(a: DrawRow, b: DrawRow)
    ensures
        ({
            let sign = 0x8000_0000_0000_0000u64;
            &&& a.watts < sign && b.watts < sign ==> (draws_more()(a, b) <==> a.watts > b.watts)
            &&& a.watts >= sign && b.watts >= sign ==> (draws_more()(a, b) <==> a.watts < b.watts)
            &&& a.watts < sign && b.watts >= sign ==> draws_more()(a, b)
            &&& a.watts >= sign && b.watts < sign ==> !draws_more()(a, b)
        }),
{
}

/// Of more than four hundred rows the first four hundred are told, and of fewer all.
pub proof fn law_four_hundred_rows_are_told_at_most(matched: int)
    requires
        matched >= 0,
    ensures
        0 <= told(matched) <= 400,
        told(matched) <= matched,
        told(matched) == matched || told(matched) == 400,
{
}

/// The list of what was used tells the period, its two ends, the resolution, the
/// kind and the total as they are, and the circuits as the store gave them: the
/// first four hundred, and how many there were.
pub proof fn law_usage_is_told_as_it_came(
    period: Seq<char>,
    from: Seq<char>,
    to: Seq<char>,
    scale: Scale,
    kind: Kind,
    rows: Seq<TotalRow>,
    total: u64,
    count: int,
    i: int,
)
    requires
        count == (if rows.len() <= 400 {
            rows.len() as int
        } else {
            400
        }),
    ensures
        ({
            let told = usage_view(period, from, to, scale, kind, rows, total);
            let o = told->Object_0;
            let list = json::field(o, "circuits"@)->0->List_0;
            &&& told is Object
            &&& json::field(o, "ok"@) == Some(JsonView::Bool(true))
            &&& json::field(o, "period"@) == Some(JsonView::Text(period))
            &&& json::field(o, "from"@) == Some(JsonView::Text(from))
            &&& json::field(o, "to"@) == Some(JsonView::Text(to))
            &&& json::field(o, "resolution"@) == Some(JsonView::Text(scale.name()))
            &&& json::field(o, "kind"@) == Some(
                JsonView::Text(
                    match kind {
                        Kind::Main => "main"@,
                        Kind::Branch => "branch"@,
                        Kind::Merged => "merged"@,
                        Kind::Circuits => "circuits"@,
                    },
                ),
            )
            &&& json::field(o, "total_kwh"@) == Some(JsonView::Real(total))
            &&& json::field(o, "unit"@) == Some(JsonView::Text("kWh"@))
            &&& json::field(o, "count"@) == Some(JsonView::Int(count))
            &&& json::field(o, "matched"@) == Some(JsonView::Int(rows.len() as int))
            &&& json::field(o, "truncated"@) == Some(JsonView::Bool(rows.len() > 400))
            &&& json::field(o, "circuits"@) == Some(JsonView::List(list))
            &&& list.len() == count
            &&& 0 <= i < count ==> {
                let c = list[i]->Object_0;
                &&& list[i] is Object
                &&& json::field(c, "circuit"@) == Some(JsonView::Text(rows[i].circuit@))
                &&& json::field(c, "kwh"@) == Some(JsonView::Real(rows[i].kwh))
            }
        }),
{
    lemma_fields_differ();
    let o = usage_view(period, from, to, scale, kind, rows, total)->Object_0;
    json::lemma_field_at(o, 0);
    json::lemma_field_at(o, 1);
    json::lemma_field_at(o, 2);
    json::lemma_field_at(o, 3);
    json::lemma_field_at(o, 4);
    json::lemma_field_at(o, 5);
    json::lemma_field_at(o, 6);
    json::lemma_field_at(o, 7);
    json::lemma_field_at(o, 8);
    json::lemma_field_at(o, 9);
    json::lemma_field_at(o, 10);
    json::lemma_field_at(o, 11);
    if 0 <= i < count {
        let c = total_view(rows[i])->Object_0;
        json::lemma_field_at(c, 0);
        json::lemma_field_at(c, 1);
    }
}

/// The list of a circuit's readings names the circuit by its label and its channel,
/// tells the period, the resolution and the total as they are, and the readings as
/// the store gave them: the first four hundred, and how many there were.
pub proof fn law_a_series_is_told_as_it_came(
    circuit: CircuitView,
    period: Seq<char>,
    scale: Scale,
    rows: Seq<PointRow>,
    stamps: Seq<Seq<char>>,
    total: u64,
    count: int,
    i: int,
)
    requires
        count == (if rows.len() <= 400 {
            rows.len() as int
        } else {
            400
        }),
    ensures
        ({
            let told = series_view(circuit, period, scale, rows, stamps, total);
            let o = told->Object_0;
            let list = json::field(o, "points"@)->0->List_0;
            &&& told is Object
            &&& json::field(o, "ok"@) == Some(JsonView::Bool(true))
            &&& json::field(o, "circuit"@) == Some(JsonView::Text(circuit.label))
            &&& json::field(o, "channel"@) == Some(
                JsonView::Text(
                    text::signed_digits(circuit.device_gid as int) + "/"@ + circuit.channel_num,
                ),
            )
            &&& json::field(o, "period"@) == Some(JsonView::Text(period))
            &&& json::field(o, "resolution"@) == Some(JsonView::Text(scale.name()))
            &&& json::field(o, "total_kwh"@) == Some(JsonView::Real(total))
            &&& json::field(o, "count"@) == Some(JsonView::Int(count))
            &&& json::field(o, "matched"@) == Some(JsonView::Int(rows.len() as int))
            &&& json::field(o, "truncated"@) == Some(JsonView::Bool(rows.len() > 400))
            &&& json::field(o, "points"@) == Some(JsonView::List(list))
            &&& list.len() == count
            &&& 0 <= i < count ==> {
                let c = list[i]->Object_0;
                &&& list[i] is Object
                &&& json::field(c, "at"@) == Some(JsonView::Text(stamps[i]))
                &&& json::field(c, "kwh"@) == Some(JsonView::Real(rows[i].kwh))
                &&& json::field(c, "watts"@) == Some(JsonView::Real(rows[i].watts))
            }
        }),
{
    lemma_fields_differ();
    let o = series_view(circuit, period, scale, rows, stamps, total)->Object_0;
    json::lemma_field_at(o, 0);
    json::lemma_field_at(o, 1);
    json::lemma_field_at(o, 2);
    json::lemma_field_at(o, 3);
    json::lemma_field_at(o, 4);
    json::lemma_field_at(o, 5);
    json::lemma_field_at(o, 6);
    json::lemma_field_at(o, 7);
    json::lemma_field_at(o, 8);
    json::lemma_field_at(o, 9);
    if 0 <= i < count {
        let c = point_view(rows[i], stamps[i])->Object_0;
        json::lemma_field_at(c, 0);
        json::lemma_field_at(c, 1);
        json::lemma_field_at(c, 2);
    }
}

/// The moments that go with a circuit's readings are those of the rows that are
/// told, on the local clock.
pub proof fn law_each_reading_has_its_own_moment(rows: Seq<PointRow>, zone: Zone, i: int)
    requires
        0 <= i < rows.len(),
        i < 400,
    ensures
        i < point_stamps(rows, zone).len() <= 400,
        point_stamps(rows, zone)[i] == rows[i].moment.local_stamp(zone),
{
}

/// What could not be done is said of the question that failed.
pub proof fn law_a_failed_question_is_named(q: QuestionView)
    ensures
        q is Channels ==> failing(q) == "cannot read channels"@,
        q is Now ==> failing(q) == "cannot read current usage"@,
        q is Usage ==> failing(q) == "cannot read usage"@,
        q is Circuit ==> failing(q) == "cannot look up a circuit"@,
        q is Points ==> failing(q) == "cannot read a series"@,
{
}

/// Where nothing is drawn there is no newest reading.
pub proof fn law_no_reading_is_the_newest_of_none(rows: Seq<DrawRow>)
    ensures
        newest(rows) is None <==> rows.len() == 0,
{
    if rows.len() > 0 {
        law_the_newest_reading_is_the_newest(rows, 0);
    }
}

/// A question is seen as the circuit, the window, the scale and the kind that it holds.
pub proof fn law_a_question_is_seen_as_it_is(
    span: Span,
    kind: Kind,
    query: String,
    circuit: Circuit,
    scale: Scale,
)
    ensures
        circuit@.device_gid == circuit.device_gid,
        circuit@.channel_num == circuit.channel_num@,
        circuit@.label == circuit.label@,
        Question::Channels@ is Channels,
        Question::Now@ is Now,
        (Question::Usage { span, kind })@ == (QuestionView::Usage { span: span@, kind }),
        (Question::Circuit { query, span, scale })@ == (QuestionView::Circuit {
            query: query@,
            span: span@,
            scale,
        }),
        (Question::Points { circuit, span, scale })@ == (QuestionView::Points {
            circuit: circuit@,
            span: span@,
            scale,
        }),
{
}

/// A step is seen as the reply or the question that it is.
pub proof fn law_a_step_is_seen_as_it_is(reply: Json, question: Question)
    ensures
        Step::Reply(reply)@ == StepView::Reply(reply@),
        Step::Ask(question)@ == StepView::Ask(question@),
{
}

} // verus!
