//! What the store gives for the questions that are put to it, over its tables.
//!
//! A query is read here by its words, so that what it gives is a matter of what
//! it says. Energies are kept as the bits of a `double`; how much a `double` is
//! and what it adds up to is left to the store, and stands here as a function
//! from bits to a whole number of some unit.

use crate::agent::{Kind, SpanView};
use crate::answer::{self, CircuitView, QuestionView};
use crate::scale::Scale;
use crate::store::{ChannelKey, ChannelRecord, ParamView, QueryView, ReadingKey};
use crate::text;
use vstd::prelude::*;

verus! {

/// The stored channels and readings.
pub struct Tables {
    pub channels: Map<ChannelKey, ChannelRecord>,
    pub readings: Map<ReadingKey, u64>,
}

/// The channel that a reading is of.
pub open spec fn channel_of(key: ReadingKey) -> ChannelKey {
    ChannelKey { device_gid: key.device_gid, channel_num: key.channel_num }
}

/// The words that a stored channel is called by: the name it was given, or else
/// its monitor and number, a monitor that nobody named by its gid.
pub open spec fn label_of(key: ChannelKey, c: ChannelRecord) -> Seq<char> {
    match c.name {
        Some(name) if name.len() > 0 => name,
        _ => (match c.device_name {
            Some(monitor) => monitor,
            None => text::signed_digits(key.device_gid as int),
        }) + " ch"@ + key.channel_num,
    }
}

/// The expression for a label in a query.
pub open spec fn label_words() -> Seq<char> {
    "coalesce(nullif(c.name, ''), coalesce(c.device_name, c.device_gid::text) || ' ch' || c.channel_num)"@
}

/// Whether a text stands between two others.
pub open spec fn framed(s: Seq<char>, head: Seq<char>, tail: Seq<char>) -> bool {
    &&& s.len() >= head.len() + tail.len()
    &&& s.take(head.len() as int) == head
    &&& s.skip(s.len() - tail.len()) == tail
}

/// What stands between two texts.
pub open spec fn within(s: Seq<char>, head: Seq<char>, tail: Seq<char>) -> Seq<char> {
    s.subrange(head.len() as int, s.len() - tail.len())
}

proof fn lemma_framed(head: Seq<char>, middle: Seq<char>, tail: Seq<char>)
    ensures
        framed(head + middle + tail, head, tail),
        within(head + middle + tail, head, tail) == middle,
{
    let s = head + middle + tail;
    assert(s.take(head.len() as int) =~= head);
    assert(s.skip(s.len() - tail.len()) =~= tail);
    assert(within(s, head, tail) =~= middle);
}

/// What a query for totals asks for: of the channels that a filter passes, at a
/// scale, from an instant up to another.
pub struct TotalsAsked {
    pub filter: Seq<char>,
    pub scale: Seq<char>,
    pub from: int,
    pub to: int,
}

/// What a query asks for, where it is one for totals by label.
pub open spec fn totals_asked(q: QueryView) -> Option<TotalsAsked> {
    let head = "SELECT "@ + label_words()
        + " AS label, sum(r.kwh) AS kwh FROM reading r JOIN channel c USING (device_gid, channel_num) WHERE r.scale = $1 AND "@;
    let tail =
        " AND r.instant >= $2 AND r.instant < $3 GROUP BY label HAVING sum(r.kwh) > 0 ORDER BY kwh DESC"@;
    if framed(q.sql, head, tail) && q.params.len() == 3 {
        match (q.params[0], q.params[1], q.params[2]) {
            (ParamView::Text(scale), ParamView::Moment(from), ParamView::Moment(to)) => Some(
                TotalsAsked { filter: within(q.sql, head, tail), scale, from, to },
            ),
            _ => None,
        }
    } else {
        None
    }
}

/// Whether a stored reading counts toward the total of a label.
pub open spec fn in_total(t: TotalsAsked, db: Tables, key: ReadingKey, label: Seq<char>) -> bool {
    &&& key.scale == t.scale
    &&& t.from <= key.instant < t.to
    &&& db.channels.contains_key(channel_of(key))
    &&& answer::passes(t.filter, db.channels[channel_of(key)])
    &&& label_of(channel_of(key), db.channels[channel_of(key)]) == label
}

/// The total of a label: the energies of the readings that count toward it, each
/// of the stored ones taken once.
pub open spec fn total_of(
    t: TotalsAsked,
    db: Tables,
    keys: Seq<ReadingKey>,
    energy: spec_fn(u64) -> int,
    label: Seq<char>,
) -> int {
    keys.fold_left(
        0int,
        |sum: int, key: ReadingKey|
            if in_total(t, db, key, label) {
                sum + energy(db.readings[key])
            } else {
                sum
            },
    )
}

/// A label and its total.
pub struct TotalGiven {
    pub label: Seq<char>,
    pub energy: int,
}

/// Whether rows are what the store gives for totals: a row for each label whose
/// total is more than nothing, with that total, the largest first.
pub open spec fn totals_given(
    t: TotalsAsked,
    db: Tables,
    keys: Seq<ReadingKey>,
    energy: spec_fn(u64) -> int,
    rows: Seq<TotalGiven>,
) -> bool {
    &&& forall|i: int|
        0 <= i < rows.len() ==> (#[trigger] rows[i]).energy > 0 && rows[i].energy == total_of(
            t,
            db,
            keys,
            energy,
            rows[i].label,
        )
    &&& forall|label: Seq<char>|
        #[trigger] total_of(t, db, keys, energy, label) > 0 ==> has_total(rows, label)
    &&& forall|i: int, j: int|
        0 <= i < j < rows.len() ==> (#[trigger] rows[i]).label != (#[trigger] rows[j]).label
            && rows[i].energy >= rows[j].energy
}

/// Whether some row is that of a label.
pub open spec fn has_total(rows: Seq<TotalGiven>, label: Seq<char>) -> bool {
    exists|i: int| 0 <= i < rows.len() && (#[trigger] rows[i]).label == label
}

/// Whether keys are those of the stored readings, each once.
pub open spec fn lists(keys: Seq<ReadingKey>, readings: Map<ReadingKey, u64>) -> bool {
    &&& keys.no_duplicates()
    &&& forall|key: ReadingKey| #[trigger] keys.contains(key) <==> readings.contains_key(key)
}

/// What a question puts to the store.
pub open spec fn put(q: QuestionView) -> QueryView {
    QueryView { sql: answer::sql_of(q), params: answer::params_of(q) }
}

/// The words of each question for the store, and the values that go with them.
pub proof fn law_the_words_put_to_the_store(
    span: SpanView,
    kind: Kind,
    filter: Seq<char>,
    query: Seq<char>,
    circuit: CircuitView,
    scale: Scale,
)
    requires
        kind == Kind::Main ==> filter == "c.kind = 'main'"@,
        kind == Kind::Branch ==> filter == "c.kind = 'branch'"@,
        kind == Kind::Merged ==> filter == "c.kind = 'merged'"@,
        kind == Kind::Circuits ==> filter
            == "(c.kind = 'merged' OR (c.kind = 'branch' AND c.merged_into IS NULL))"@,
    ensures
        ({
            let label =
                "coalesce(nullif(c.name, ''), coalesce(c.device_name, c.device_gid::text) || ' ch' || c.channel_num)"@;
            let circuits =
                "(c.kind = 'merged' OR (c.kind = 'branch' AND c.merged_into IS NULL))"@;
            let usage = put(QuestionView::Usage { span, kind });
            let channels = put(QuestionView::Channels);
            let now = put(QuestionView::Now);
            let named = put(QuestionView::Circuit { query, span, scale });
            let points = put(QuestionView::Points { circuit, span, scale });
            &&& usage.sql == "SELECT "@ + label
                + " AS label, sum(r.kwh) AS kwh FROM reading r JOIN channel c USING (device_gid, channel_num) WHERE r.scale = $1 AND "@
                + filter
                + " AND r.instant >= $2 AND r.instant < $3 GROUP BY label HAVING sum(r.kwh) > 0 ORDER BY kwh DESC"@
            &&& usage.params == seq![
                ParamView::Text(answer::finest(span).name()),
                ParamView::Moment(span.from),
                ParamView::Moment(span.to),
            ]
            &&& channels.sql == "SELECT "@ + label
                + " AS label, c.device_name, c.channel_num, c.kind, c.name IS NOT NULL FROM channel c WHERE "@
                + circuits
                + " ORDER BY c.device_name, c.kind, length(c.channel_num), c.channel_num"@
            &&& channels.params.len() == 0
            &&& now.sql == "SELECT DISTINCT ON (r.device_gid, r.channel_num) "@ + label
                + " AS label, r.kwh, r.instant FROM reading r JOIN channel c USING (device_gid, channel_num) WHERE r.scale = '1MIN' AND "@
                + circuits
                + " AND r.instant > now() - interval '30 minutes' ORDER BY r.device_gid, r.channel_num, r.instant DESC"@
            &&& now.params.len() == 0
            &&& named.sql == "SELECT c.device_gid, c.channel_num, "@ + label
                + " AS label, c.kind, c.merged_into FROM channel c WHERE ("@ + label
                + ") ILIKE $1 OR c.device_gid || '/' || c.channel_num = $2 ORDER BY label"@
            &&& named.params == seq![
                ParamView::Text("%"@ + query + "%"@),
                ParamView::Text(query),
            ]
            &&& points.sql
                == "SELECT instant, kwh FROM reading WHERE device_gid = $1 AND channel_num = $2 AND scale = $3 AND instant >= $4 AND instant < $5 ORDER BY instant"@
            &&& points.params == seq![
                ParamView::Int(circuit.device_gid),
                ParamView::Text(circuit.channel_num),
                ParamView::Text(scale.name()),
                ParamView::Moment(span.from),
                ParamView::Moment(span.to),
            ]
        }),
{
}

/// What the store gives for a question about usage is, for each label of a channel
/// that the kind counts, the sum of the energies of exactly the stored readings of
/// such channels at the chosen scale, from the start of the period up to its end
/// and not at it. Labels whose sum is nothing are left out, none is given twice, and
/// the largest comes first.
pub proof fn law_usage_sums_the_energy_of_each_circuit(
    span: SpanView,
    kind: Kind,
    db: Tables,
    keys: Seq<ReadingKey>,
    energy: spec_fn(u64) -> int,
    rows: Seq<TotalGiven>,
)
    requires
        lists(keys, db.readings),
        totals_asked(put(QuestionView::Usage { span, kind })) matches Some(t) ==> totals_given(
            t,
            db,
            keys,
            energy,
            rows,
        ),
    ensures
        totals_asked(put(QuestionView::Usage { span, kind })) is Some,
        ({
            let label_at = |key: ReadingKey|
                label_of(channel_of(key), db.channels[channel_of(key)]);
            let counts = |key: ReadingKey|
                {
                    let c = db.channels[channel_of(key)];
                    &&& db.channels.contains_key(channel_of(key))
                    &&& match kind {
                        Kind::Main => c.kind == "main"@,
                        Kind::Branch => c.kind == "branch"@,
                        Kind::Merged => c.kind == "merged"@,
                        Kind::Circuits => c.kind == "merged"@ || (c.kind == "branch"@
                            && c.merged_into is None),
                    }
                };
            let sum = |label: Seq<char>|
                keys.fold_left(
                    0int,
                    |sum: int, key: ReadingKey|
                        if key.scale == answer::finest(span).name() && span.from <= key.instant
                            < span.to && counts(key) && label_at(key) == label {
                            sum + energy(db.readings[key])
                        } else {
                            sum
                        },
                );
            &&& forall|i: int|
                0 <= i < rows.len() ==> (#[trigger] rows[i]).energy > 0 && rows[i].energy == sum(
                    rows[i].label,
                )
            &&& forall|label: Seq<char>|
                sum(label) > 0 ==> #[trigger] has_total(rows, label)
            &&& forall|i: int, j: int|
                0 <= i < j < rows.len() ==> (#[trigger] rows[i]).label != (
                #[trigger] rows[j]).label && rows[i].energy >= rows[j].energy
        }),
{
    let t = lemma_usage_is_read(span, kind);
    let label_at = |key: ReadingKey| label_of(channel_of(key), db.channels[channel_of(key)]);
    let counts = |key: ReadingKey|
        {
            let c = db.channels[channel_of(key)];
            &&& db.channels.contains_key(channel_of(key))
            &&& match kind {
                Kind::Main => c.kind == "main"@,
                Kind::Branch => c.kind == "branch"@,
                Kind::Merged => c.kind == "merged"@,
                Kind::Circuits => c.kind == "merged"@ || (c.kind == "branch"@
                    && c.merged_into is None),
            }
        };
    assert forall|label: Seq<char>| #[trigger] total_of(t, db, keys, energy, label)
        == keys.fold_left(
        0int,
        |sum: int, key: ReadingKey|
            if key.scale == answer::finest(span).name() && span.from <= key.instant < span.to
                && counts(key) && label_at(key) == label {
                sum + energy(db.readings[key])
            } else {
                sum
            },
    ) by {
        let f = |sum: int, key: ReadingKey|
            if in_total(t, db, key, label) {
                sum + energy(db.readings[key])
            } else {
                sum
            };
        let g = |sum: int, key: ReadingKey|
            if key.scale == answer::finest(span).name() && span.from <= key.instant < span.to
                && counts(key) && label_at(key) == label {
                sum + energy(db.readings[key])
            } else {
                sum
            };
        assert forall|sum: int, key: ReadingKey| #[trigger] f(sum, key) == g(sum, key) by {
            answer::law_each_kind_counts_its_own(db.channels[channel_of(key)]);
        }
        assert(f =~= g);
    }
    assert forall|label: Seq<char>|
        keys.fold_left(
            0int,
            |sum: int, key: ReadingKey|
                if key.scale == answer::finest(span).name() && span.from <= key.instant
                    < span.to && counts(key) && label_at(key) == label {
                    sum + energy(db.readings[key])
                } else {
                    sum
                },
        ) > 0 implies #[trigger] has_total(rows, label) by {
        assert(total_of(t, db, keys, energy, label) > 0);
    }
}

/// The question about usage is read as what it asks.
proof fn lemma_usage_is_read(span: SpanView, kind: Kind) -> (t: TotalsAsked)
    ensures
        totals_asked(put(QuestionView::Usage { span, kind })) == Some(t),
        t == (TotalsAsked {
            filter: answer::filter_of(kind),
            scale: answer::finest(span).name(),
            from: span.from,
            to: span.to,
        }),
{
    let head = "SELECT "@ + label_words()
        + " AS label, sum(r.kwh) AS kwh FROM reading r JOIN channel c USING (device_gid, channel_num) WHERE r.scale = $1 AND "@;
    let tail =
        " AND r.instant >= $2 AND r.instant < $3 GROUP BY label HAVING sum(r.kwh) > 0 ORDER BY kwh DESC"@;
    lemma_framed(head, answer::filter_of(kind), tail);
    TotalsAsked {
        filter: answer::filter_of(kind),
        scale: answer::finest(span).name(),
        from: span.from,
        to: span.to,
    }
}

/// A period that is parted at a moment has the totals of its two parts together:
/// no reading is counted in both, and none in neither.
pub proof fn law_a_period_is_the_sum_of_its_parts(
    t: TotalsAsked,
    middle: int,
    db: Tables,
    keys: Seq<ReadingKey>,
    energy: spec_fn(u64) -> int,
    label: Seq<char>,
)
    requires
        t.from <= middle <= t.to,
    ensures
        total_of(t, db, keys, energy, label) == total_of(
            TotalsAsked { to: middle, ..t },
            db,
            keys,
            energy,
            label,
        ) + total_of(TotalsAsked { from: middle, ..t }, db, keys, energy, label),
    decreases keys.len(),
{
    reveal(Seq::fold_left);
    if keys.len() > 0 {
        law_a_period_is_the_sum_of_its_parts(t, middle, db, keys.drop_last(), energy, label);
    }
}

/// A reading that is stored beside others adds its own energy to the total of its
/// label where it counts, and nothing to any other.
pub proof fn law_one_more_reading_adds_its_own_energy(
    t: TotalsAsked,
    db: Tables,
    keys: Seq<ReadingKey>,
    key: ReadingKey,
    energy: spec_fn(u64) -> int,
    label: Seq<char>,
)
    ensures
        total_of(t, db, keys.push(key), energy, label) == total_of(t, db, keys, energy, label) + (
        if in_total(t, db, key, label) {
            energy(db.readings[key])
        } else {
            0
        }),
{
    reveal(Seq::fold_left);
    assert(keys.push(key).drop_last() =~= keys);
}

/// A label is never empty: it is the name that was given, where one was, and
/// otherwise says which channel of which monitor it is.
pub proof fn law_a_label_says_which_channel_it_is(key: ChannelKey, c: ChannelRecord)
    ensures
        label_of(key, c).len() > 0,
        c.name matches Some(name) && name.len() > 0 ==> label_of(key, c) == c.name->0,
        !(c.name matches Some(name) && name.len() > 0) ==> label_of(key, c) == (
        match c.device_name {
            Some(monitor) => monitor,
            None => text::signed_digits(key.device_gid as int),
        }) + " ch"@ + key.channel_num,
{
    reveal_strlit(" ch");
    assert(" ch"@.len() == 3);
}

/// What a query for the readings of a channel asks for.
pub struct PointsAsked {
    pub device_gid: i64,
    pub channel_num: Seq<char>,
    pub scale: Seq<char>,
    pub from: int,
    pub to: int,
}

/// What a query asks for, where it is one for the readings of a channel.
pub open spec fn points_asked(q: QueryView) -> Option<PointsAsked> {
    if q.sql
        == "SELECT instant, kwh FROM reading WHERE device_gid = $1 AND channel_num = $2 AND scale = $3 AND instant >= $4 AND instant < $5 ORDER BY instant"@
        && q.params.len() == 5 {
        match (q.params[0], q.params[1], q.params[2], q.params[3], q.params[4]) {
            (
                ParamView::Int(device_gid),
                ParamView::Text(channel_num),
                ParamView::Text(scale),
                ParamView::Moment(from),
                ParamView::Moment(to),
            ) => Some(PointsAsked { device_gid, channel_num, scale, from, to }),
            _ => None,
        }
    } else {
        None
    }
}

/// One reading that the store gives.
pub struct PointGiven {
    pub instant: int,
    pub kwh: u64,
}

/// Whether rows are what the store gives for the readings of a channel: those of
/// the window, in the order of time.
pub open spec fn points_given(p: PointsAsked, db: Tables, rows: Seq<PointGiven>) -> bool {
    &&& forall|i: int|
        0 <= i < rows.len() ==> {
            let key = ReadingKey {
                device_gid: p.device_gid,
                channel_num: p.channel_num,
                scale: p.scale,
                instant: (#[trigger] rows[i]).instant,
            };
            &&& p.from <= rows[i].instant < p.to
            &&& db.readings.contains_key(key)
            &&& db.readings[key] == rows[i].kwh
        }
    &&& forall|key: ReadingKey| #[trigger]
        db.readings.contains_key(key) && key.device_gid == p.device_gid && key.channel_num
            == p.channel_num && key.scale == p.scale && p.from <= key.instant < p.to ==> has_point(
            rows,
            key.instant,
        )
    &&& forall|i: int, j: int|
        0 <= i < j < rows.len() ==> (#[trigger] rows[i]).instant < (#[trigger] rows[j]).instant
}

/// Whether some row is of an instant.
pub open spec fn has_point(rows: Seq<PointGiven>, instant: int) -> bool {
    exists|i: int| 0 <= i < rows.len() && (#[trigger] rows[i]).instant == instant
}

/// What the store gives for one circuit's readings is exactly the stored readings of
/// its channel at the scale, from the start of the period up to its end and not at
/// it, each with its own energy, in the order of time.
pub proof fn law_a_series_is_the_stored_readings_of_its_channel(
    circuit: CircuitView,
    span: SpanView,
    scale: Scale,
    db: Tables,
    rows: Seq<PointGiven>,
    instant: int,
)
    requires
        points_asked(put(QuestionView::Points { circuit, span, scale })) matches Some(p)
            ==> points_given(p, db, rows),
    ensures
        points_asked(put(QuestionView::Points { circuit, span, scale })) is Some,
        ({
            let key = ReadingKey {
                device_gid: circuit.device_gid,
                channel_num: circuit.channel_num,
                scale: scale.name(),
                instant,
            };
            &&& (exists|i: int| 0 <= i < rows.len() && (#[trigger] rows[i]).instant == instant)
                <==> span.from <= instant < span.to && db.readings.contains_key(key)
            &&& forall|i: int|
                0 <= i < rows.len() && (#[trigger] rows[i]).instant == instant ==> rows[i].kwh
                    == db.readings[key]
            &&& forall|i: int, j: int|
                0 <= i < j < rows.len() ==> (#[trigger] rows[i]).instant < (
                #[trigger] rows[j]).instant
        }),
{
    let key = ReadingKey {
        device_gid: circuit.device_gid,
        channel_num: circuit.channel_num,
        scale: scale.name(),
        instant,
    };
    if span.from <= instant < span.to && db.readings.contains_key(key) {
        assert(has_point(rows, instant));
    }
}

/// The filter of a query for the newest minutes, where it is one: readings by the
/// minute of the last half hour, the newest of each channel.
pub open spec fn newest_asked(q: QueryView) -> Option<Seq<char>> {
    let head = "SELECT DISTINCT ON (r.device_gid, r.channel_num) "@ + label_words()
        + " AS label, r.kwh, r.instant FROM reading r JOIN channel c USING (device_gid, channel_num) WHERE r.scale = '1MIN' AND "@;
    let tail =
        " AND r.instant > now() - interval '30 minutes' ORDER BY r.device_gid, r.channel_num, r.instant DESC"@;
    if framed(q.sql, head, tail) && q.params.len() == 0 {
        Some(within(q.sql, head, tail))
    } else {
        None
    }
}

/// A reading that the store gives, with its label and the channel that it is of.
pub struct NewestGiven {
    pub channel: ChannelKey,
    pub label: Seq<char>,
    pub kwh: u64,
    pub instant: int,
}

/// The key of a reading by the minute.
pub open spec fn minute_key(channel: ChannelKey, instant: int) -> ReadingKey {
    ReadingKey {
        device_gid: channel.device_gid,
        channel_num: channel.channel_num,
        scale: "1MIN"@,
        instant,
    }
}

/// Whether a minute of a channel counts as new by a clock.
pub open spec fn is_recent(
    filter: Seq<char>,
    db: Tables,
    clock: int,
    channel: ChannelKey,
    instant: int,
) -> bool {
    &&& db.readings.contains_key(minute_key(channel, instant))
    &&& instant > clock - 30 * 60 * 1_000_000_000
    &&& db.channels.contains_key(channel)
    &&& answer::passes(filter, db.channels[channel])
}

/// Whether rows are what the store gives for the newest minutes, by its clock: one
/// for each channel that has a recent minute, the newest.
pub open spec fn newest_given(
    filter: Seq<char>,
    db: Tables,
    clock: int,
    rows: Seq<NewestGiven>,
) -> bool {
    &&& forall|i: int|
        0 <= i < rows.len() ==> is_newest_minute(filter, db, clock, #[trigger] rows[i])
    &&& forall|channel: ChannelKey, instant: int| #[trigger]
        is_recent(filter, db, clock, channel, instant) ==> has_newest(rows, channel)
    &&& forall|i: int, j: int|
        0 <= i < j < rows.len() ==> (#[trigger] rows[i]).channel != (#[trigger] rows[j]).channel
}

/// Whether a row is the newest recent minute of its channel.
pub open spec fn is_newest_minute(
    filter: Seq<char>,
    db: Tables,
    clock: int,
    row: NewestGiven,
) -> bool {
    &&& is_recent(filter, db, clock, row.channel, row.instant)
    &&& row.label == label_of(row.channel, db.channels[row.channel])
    &&& row.kwh == db.readings[minute_key(row.channel, row.instant)]
    &&& forall|instant: int| #[trigger]
        is_recent(filter, db, clock, row.channel, instant) ==> instant <= row.instant
}

/// Whether some row is of a channel.
pub open spec fn has_newest(rows: Seq<NewestGiven>, channel: ChannelKey) -> bool {
    exists|i: int| 0 <= i < rows.len() && (#[trigger] rows[i]).channel == channel
}

/// What the store gives for what is drawn now is, of each merged channel and each
/// branch that belongs to no merge, the newest reading by the minute, with its own
/// label and energy, where there is one of the last half hour.
pub proof fn law_now_is_the_newest_minute_of_each_circuit(
    db: Tables,
    clock: int,
    rows: Seq<NewestGiven>,
    channel: ChannelKey,
    instant: int,
)
    requires
        newest_asked(put(QuestionView::Now)) matches Some(filter) ==> newest_given(
            filter,
            db,
            clock,
            rows,
        ),
    ensures
        newest_asked(put(QuestionView::Now)) is Some,
        ({
            let c = db.channels[channel];
            let counts = db.channels.contains_key(channel) && (c.kind == "merged"@ || (c.kind
                == "branch"@ && c.merged_into is None));
            let recent = |instant: int|
                db.readings.contains_key(
                    ReadingKey {
                        device_gid: channel.device_gid,
                        channel_num: channel.channel_num,
                        scale: "1MIN"@,
                        instant,
                    },
                ) && instant > clock - 1_800_000_000_000;
            &&& counts && recent(instant) ==> exists|i: int|
                0 <= i < rows.len() && (#[trigger] rows[i]).channel == channel
            &&& forall|i: int|
                0 <= i < rows.len() && (#[trigger] rows[i]).channel == channel ==> {
                    &&& counts
                    &&& recent(rows[i].instant)
                    &&& recent(instant) ==> instant <= rows[i].instant
                    &&& rows[i].label == label_of(channel, c)
                    &&& rows[i].kwh == db.readings[ReadingKey {
                        device_gid: channel.device_gid,
                        channel_num: channel.channel_num,
                        scale: "1MIN"@,
                        instant: rows[i].instant,
                    }]
                }
            &&& forall|i: int, j: int|
                0 <= i < j < rows.len() ==> (#[trigger] rows[i]).channel != (
                #[trigger] rows[j]).channel
        }),
{
    let head = "SELECT DISTINCT ON (r.device_gid, r.channel_num) "@ + label_words()
        + " AS label, r.kwh, r.instant FROM reading r JOIN channel c USING (device_gid, channel_num) WHERE r.scale = '1MIN' AND "@;
    let tail =
        " AND r.instant > now() - interval '30 minutes' ORDER BY r.device_gid, r.channel_num, r.instant DESC"@;
    let filter = answer::filter_of(Kind::Circuits);
    lemma_framed(head, filter, tail);
    answer::law_each_kind_counts_its_own(db.channels[channel]);
    if is_recent(filter, db, clock, channel, instant) {
        assert(has_newest(rows, channel));
    }
    assert forall|i: int| 0 <= i < rows.len() && (#[trigger] rows[i]).channel == channel implies
        is_newest_minute(filter, db, clock, rows[i]) by {
    }
}

/// The filter of a query for the circuits that are measured, where it is one.
pub open spec fn circuits_asked(q: QueryView) -> Option<Seq<char>> {
    let head = "SELECT "@ + label_words()
        + " AS label, c.device_name, c.channel_num, c.kind, c.name IS NOT NULL FROM channel c WHERE "@;
    let tail = " ORDER BY c.device_name, c.kind, length(c.channel_num), c.channel_num"@;
    if framed(q.sql, head, tail) && q.params.len() == 0 {
        Some(within(q.sql, head, tail))
    } else {
        None
    }
}

/// A circuit that the store gives, and the channel that it is.
pub struct CircuitGiven {
    pub channel: ChannelKey,
    pub label: Seq<char>,
    pub monitor: Option<Seq<char>>,
    pub kind: Seq<char>,
    pub named: bool,
}

/// Whether rows are the circuits that the store gives: one for each channel that a
/// filter passes, as it is stored.
pub open spec fn circuits_given(
    filter: Seq<char>,
    db: Tables,
    rows: Seq<CircuitGiven>,
) -> bool {
    &&& forall|i: int| 0 <= i < rows.len() ==> is_as_stored(filter, db, #[trigger] rows[i])
    &&& forall|channel: ChannelKey| #[trigger]
        db.channels.contains_key(channel) && answer::passes(filter, db.channels[channel])
            ==> has_circuit(rows, channel)
    &&& forall|i: int, j: int|
        0 <= i < j < rows.len() ==> (#[trigger] rows[i]).channel != (#[trigger] rows[j]).channel
}

/// Whether a row is a channel that a filter passes, as it is stored.
pub open spec fn is_as_stored(filter: Seq<char>, db: Tables, row: CircuitGiven) -> bool {
    let c = db.channels[row.channel];
    &&& db.channels.contains_key(row.channel)
    &&& answer::passes(filter, c)
    &&& row.label == label_of(row.channel, c)
    &&& row.monitor == c.device_name
    &&& row.kind == c.kind
    &&& row.named == (c.name is Some)
}

/// Whether some row is of a channel.
pub open spec fn has_circuit(rows: Seq<CircuitGiven>, channel: ChannelKey) -> bool {
    exists|i: int| 0 <= i < rows.len() && (#[trigger] rows[i]).channel == channel
}

/// What the store gives for what is measured is every merged channel and every
/// branch that belongs to no merge, each once and as it is stored, and nothing else.
pub proof fn law_every_circuit_is_listed_once(
    db: Tables,
    rows: Seq<CircuitGiven>,
    channel: ChannelKey,
)
    requires
        circuits_asked(put(QuestionView::Channels)) matches Some(filter) ==> circuits_given(
            filter,
            db,
            rows,
        ),
    ensures
        circuits_asked(put(QuestionView::Channels)) is Some,
        ({
            let c = db.channels[channel];
            &&& (exists|i: int| 0 <= i < rows.len() && (#[trigger] rows[i]).channel == channel)
                <==> db.channels.contains_key(channel) && (c.kind == "merged"@ || (c.kind
                == "branch"@ && c.merged_into is None))
            &&& forall|i: int|
                0 <= i < rows.len() && (#[trigger] rows[i]).channel == channel ==> rows[i].label
                    == label_of(channel, c) && rows[i].monitor == c.device_name && rows[i].kind
                    == c.kind && rows[i].named == (c.name is Some)
            &&& forall|i: int, j: int|
                0 <= i < j < rows.len() ==> (#[trigger] rows[i]).channel != (
                #[trigger] rows[j]).channel
        }),
{
    let head = "SELECT "@ + label_words()
        + " AS label, c.device_name, c.channel_num, c.kind, c.name IS NOT NULL FROM channel c WHERE "@;
    let tail = " ORDER BY c.device_name, c.kind, length(c.channel_num), c.channel_num"@;
    let filter = answer::filter_of(Kind::Circuits);
    lemma_framed(head, filter, tail);
    answer::law_each_kind_counts_its_own(db.channels[channel]);
    if db.channels.contains_key(channel) && answer::passes(filter, db.channels[channel]) {
        assert(has_circuit(rows, channel));
    }
    assert forall|i: int| 0 <= i < rows.len() && (#[trigger] rows[i]).channel == channel implies
        is_as_stored(filter, db, rows[i]) by {
    }
}

/// The pattern for a label and the text of a channel in a query for the circuits
/// that a name may mean, where it is one.
pub open spec fn candidates_asked(q: QueryView) -> Option<(Seq<char>, Seq<char>)> {
    if q.sql == "SELECT c.device_gid, c.channel_num, "@ + label_words()
        + " AS label, c.kind, c.merged_into FROM channel c WHERE ("@ + label_words()
        + ") ILIKE $1 OR c.device_gid || '/' || c.channel_num = $2 ORDER BY label"@
        && q.params.len() == 2 {
        match (q.params[0], q.params[1]) {
            (ParamView::Text(pattern), ParamView::Text(channel)) => Some((pattern, channel)),
            _ => None,
        }
    } else {
        None
    }
}

/// Whether the store offers a channel for a name, where `like` says which texts are
/// like which pattern.
pub open spec fn is_offered(
    asked: (Seq<char>, Seq<char>),
    like: spec_fn(Seq<char>, Seq<char>) -> bool,
    key: ChannelKey,
    c: ChannelRecord,
) -> bool {
    like(label_of(key, c), asked.0) || text::signed_digits(key.device_gid as int) + "/"@
        + key.channel_num == asked.1
}

/// A channel is offered for a name where its label is like what was typed with
/// anything before and after it, and where what was typed is its monitor and number.
pub proof fn law_a_name_is_looked_for_anywhere_in_a_label(
    query: Seq<char>,
    span: SpanView,
    scale: Scale,
    like: spec_fn(Seq<char>, Seq<char>) -> bool,
    key: ChannelKey,
    c: ChannelRecord,
)
    ensures
        ({
            let asked = candidates_asked(put(QuestionView::Circuit { query, span, scale }));
            &&& asked is Some
            &&& is_offered(asked->0, like, key, c) <==> like(
                label_of(key, c),
                "%"@ + query + "%"@,
            ) || query == text::signed_digits(key.device_gid as int) + "/"@ + key.channel_num
        }),
{
}

} // verus!
