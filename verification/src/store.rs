//! What is put to the store, and what is made of its answers.

use crate::config::{Db, DbView};
use crate::emporia::{self, NamedChannel, Reading};
use crate::plan::{Series, SeriesView, Watermark};
use crate::scale::{self, Scale};
use crate::sort;
use crate::text;
use crate::time::Instant;
use vstd::prelude::*;

verus! {

/// The tables, created on every start, so that a fresh database and an existing
/// one are the same case. A column added to a table that may exist already is
/// in a line of its own.
pub const SCHEMA: &'static str = "
CREATE TABLE IF NOT EXISTS channel (
    device_gid   BIGINT NOT NULL,
    channel_num  TEXT   NOT NULL,
    device_name  TEXT,
    name         TEXT,
    kind         TEXT   NOT NULL,
    multiplier   DOUBLE PRECISION,
    seen_at      TIMESTAMPTZ NOT NULL DEFAULT now(),
    PRIMARY KEY (device_gid, channel_num)
);
CREATE TABLE IF NOT EXISTS reading (
    device_gid   BIGINT NOT NULL,
    channel_num  TEXT   NOT NULL,
    scale        TEXT   NOT NULL,
    instant      TIMESTAMPTZ NOT NULL,
    kwh          DOUBLE PRECISION NOT NULL,
    PRIMARY KEY (device_gid, channel_num, scale, instant)
);
CREATE INDEX IF NOT EXISTS reading_series_instant
    ON reading (device_gid, channel_num, scale, instant DESC);
CREATE TABLE IF NOT EXISTS heartbeat (
    id           BOOLEAN PRIMARY KEY DEFAULT TRUE,
    last_success TIMESTAMPTZ,
    last_error   TEXT,
    ok           BOOLEAN NOT NULL DEFAULT TRUE,
    authenticated_at TIMESTAMPTZ,
    CONSTRAINT heartbeat_single_row CHECK (id)
);
INSERT INTO heartbeat (id) VALUES (TRUE) ON CONFLICT (id) DO NOTHING;
ALTER TABLE heartbeat ADD COLUMN IF NOT EXISTS authenticated_at TIMESTAMPTZ;
ALTER TABLE channel ADD COLUMN IF NOT EXISTS merged_into TEXT;
";

/// Records a channel as it is described now.
pub const SAVE_CHANNEL: &'static str =
    "INSERT INTO channel (device_gid, channel_num, device_name, name, kind, multiplier, \
     merged_into, seen_at) VALUES ($1,$2,$3,$4,$5,$6,$7, now()) \
     ON CONFLICT (device_gid, channel_num) DO UPDATE SET device_name = EXCLUDED.device_name, \
     name = EXCLUDED.name, kind = EXCLUDED.kind, multiplier = EXCLUDED.multiplier, \
     merged_into = EXCLUDED.merged_into, seen_at = now()";

/// Records a reading. A recent interval is revised as late readings arrive, so
/// the second answer for an instant replaces the first.
pub const SAVE_READING: &'static str =
    "INSERT INTO reading (device_gid, channel_num, scale, instant, kwh) \
     VALUES ($1,$2,$3,$4,$5) ON CONFLICT (device_gid, channel_num, scale, instant) \
     DO UPDATE SET kwh = EXCLUDED.kwh";

/// The newest reading of every series.
pub const WATERMARKS: &'static str =
    "SELECT device_gid, channel_num, scale, MAX(instant) FROM reading \
     GROUP BY device_gid, channel_num, scale";

pub const RECORD_SUCCESS: &'static str =
    "UPDATE heartbeat SET last_success = now(), last_error = NULL, ok = TRUE, \
     authenticated_at = COALESCE($1, authenticated_at) WHERE id";

/// Only a fatal failure makes the service unwell, and it stays so until a
/// success.
pub const RECORD_FAILURE: &'static str =
    "UPDATE heartbeat SET last_error = $1, ok = NOT $2 AND ok WHERE id";

pub const HEALTH: &'static str =
    "SELECT last_success, last_error, ok, authenticated_at FROM heartbeat WHERE id";

pub const COUNTS: &'static str = "SELECT scale, count(*) FROM reading GROUP BY scale";

/// A value handed to the store with a query. A fractional number is handed by
/// the bits of its `double`.
#[derive(Debug, PartialEq, Eq)]
pub enum Param {
    Text(String),
    OptionalText(Option<String>),
    Int(i64),
    Bool(bool),
    Double(u64),
    OptionalDouble(Option<u64>),
    Moment(Instant),
    OptionalMoment(Option<Instant>),
}

/// A value handed to the store, its text as characters and its moment in
/// nanoseconds.
pub enum ParamView {
    Text(Seq<char>),
    OptionalText(Option<Seq<char>>),
    Int(i64),
    Bool(bool),
    Double(u64),
    OptionalDouble(Option<u64>),
    Moment(int),
    OptionalMoment(Option<Instant>),
}

impl View for Param {
    type V = ParamView;

    open spec fn view(&self) -> ParamView {
        match self {
            Param::Text(s) => ParamView::Text(s@),
            Param::OptionalText(s) => ParamView::OptionalText(text::view_of(*s)),
            Param::Int(n) => ParamView::Int(*n),
            Param::Bool(b) => ParamView::Bool(*b),
            Param::Double(bits) => ParamView::Double(*bits),
            Param::OptionalDouble(bits) => ParamView::OptionalDouble(*bits),
            Param::Moment(t) => ParamView::Moment(t@),
            Param::OptionalMoment(t) => ParamView::OptionalMoment(*t),
        }
    }
}

/// A query and what it is handed, in order.
#[derive(Debug, PartialEq, Eq)]
pub struct Query {
    pub sql: String,
    pub params: Vec<Param>,
}

/// A query and what it is handed, as views.
pub struct QueryView {
    pub sql: Seq<char>,
    pub params: Seq<ParamView>,
}

/// Values handed to the store, as views.
pub open spec fn param_views(params: Seq<Param>) -> Seq<ParamView> {
    params.map_values(|p: Param| p@)
}

impl View for Query {
    type V = QueryView;

    open spec fn view(&self) -> QueryView {
        QueryView { sql: self.sql@, params: param_views(self.params@) }
    }
}

/// Queries, as views.
pub open spec fn query_views(queries: Seq<Query>) -> Seq<QueryView> {
    queries.map_values(|q: Query| q@)
}

/// What records a channel.
pub open spec fn channel_query(c: NamedChannel) -> QueryView {
    QueryView {
        sql: SAVE_CHANNEL@,
        params: seq![
            ParamView::Int(c.device_gid),
            ParamView::Text(c.channel_num@),
            ParamView::OptionalText(text::view_of(c.device_name)),
            ParamView::OptionalText(text::view_of(c.name)),
            ParamView::Text(c.kind.word()),
            ParamView::OptionalDouble(c.multiplier),
            ParamView::OptionalText(text::view_of(c.merged_into)),
        ],
    }
}

fn save_channel(c: &NamedChannel) -> (q: Query)
    ensures
        q@ == channel_query(*c),
{
    let mut params: Vec<Param> = Vec::new();
    params.push(Param::Int(c.device_gid));
    params.push(Param::Text(c.channel_num.clone()));
    params.push(Param::OptionalText(text::copied(&c.device_name)));
    params.push(Param::OptionalText(text::copied(&c.name)));
    params.push(Param::Text(c.kind.as_str().to_owned()));
    params.push(Param::OptionalDouble(c.multiplier));
    params.push(Param::OptionalText(text::copied(&c.merged_into)));
    assert(param_views(params@) =~= channel_query(*c).params);
    Query { sql: SAVE_CHANNEL.to_owned(), params }
}

/// What records channels, one by one in their order.
pub fn save_channels(channels: &Vec<NamedChannel>) -> (queries: Vec<Query>)
    ensures
        query_views(queries@) == channels@.map_values(|c: NamedChannel| channel_query(c)),
{
    let mut queries: Vec<Query> = Vec::new();
    let mut i: usize = 0;
    while i < channels.len()
        invariant
            i <= channels.len(),
            query_views(queries@) == channels@.take(i as int).map_values(
                |c: NamedChannel| channel_query(c),
            ),
        decreases channels.len() - i,
    {
        let ghost was = queries@;
        let q = save_channel(&channels[i]);
        queries.push(q);
        proof {
            let f = |c: NamedChannel| channel_query(c);
            assert(query_views(queries@) =~= query_views(was).push(q@));
            assert(channels@.take(i + 1).map_values(f) =~= channels@.take(i as int).map_values(
                f,
            ).push(channel_query(channels@[i as int])));
        }
        i = i + 1;
    }
    assert(channels@.take(channels@.len() as int) =~= channels@);
    queries
}

/// What tells one stored channel from every other: its monitor and its number.
pub struct ChannelKey {
    pub device_gid: i64,
    pub channel_num: Seq<char>,
}

/// What is stored of a channel under its key. When it was last seen is kept
/// beside this.
pub struct ChannelRecord {
    pub device_name: Option<Seq<char>>,
    pub name: Option<Seq<char>>,
    pub kind: Seq<char>,
    pub multiplier: Option<u64>,
    pub merged_into: Option<Seq<char>>,
}

/// The key of a channel.
pub open spec fn channel_key(c: NamedChannel) -> ChannelKey {
    ChannelKey { device_gid: c.device_gid, channel_num: c.channel_num@ }
}

/// What a channel is described by, the merge it belongs to included.
pub open spec fn description(c: NamedChannel) -> ChannelRecord {
    ChannelRecord {
        device_name: text::view_of(c.device_name),
        name: text::view_of(c.name),
        kind: c.kind.word(),
        multiplier: c.multiplier,
        merged_into: text::view_of(c.merged_into),
    }
}

/// The stored channels after a query that records one: what the key of its
/// values held is replaced by its description.
pub open spec fn described(m: Map<ChannelKey, ChannelRecord>, q: QueryView) -> Map<
    ChannelKey,
    ChannelRecord,
> {
    if q.sql
        == "INSERT INTO channel (device_gid, channel_num, device_name, name, kind, multiplier, merged_into, seen_at) VALUES ($1,$2,$3,$4,$5,$6,$7, now()) ON CONFLICT (device_gid, channel_num) DO UPDATE SET device_name = EXCLUDED.device_name, name = EXCLUDED.name, kind = EXCLUDED.kind, multiplier = EXCLUDED.multiplier, merged_into = EXCLUDED.merged_into, seen_at = now()"@
        && q.params.len() == 7 {
        match (
            q.params[0],
            q.params[1],
            q.params[2],
            q.params[3],
            q.params[4],
            q.params[5],
            q.params[6],
        ) {
            (
                ParamView::Int(device_gid),
                ParamView::Text(channel_num),
                ParamView::OptionalText(device_name),
                ParamView::OptionalText(name),
                ParamView::Text(kind),
                ParamView::OptionalDouble(multiplier),
                ParamView::OptionalText(merged_into),
            ) => m.insert(
                ChannelKey { device_gid, channel_num },
                ChannelRecord { device_name, name, kind, multiplier, merged_into },
            ),
            _ => m,
        }
    } else {
        m
    }
}

/// The stored channels after queries, one by one in their order.
pub open spec fn described_all(
    m: Map<ChannelKey, ChannelRecord>,
    queries: Seq<QueryView>,
) -> Map<ChannelKey, ChannelRecord>
    decreases queries.len(),
{
    if queries.len() == 0 {
        m
    } else {
        described(described_all(m, queries.drop_last()), queries.last())
    }
}

/// The stored channels after the queries that record channels.
pub open spec fn known(
    m: Map<ChannelKey, ChannelRecord>,
    channels: Seq<NamedChannel>,
) -> Map<ChannelKey, ChannelRecord> {
    described_all(m, channels.map_values(|c: NamedChannel| channel_query(c)))
}

proof fn lemma_known_step(m: Map<ChannelKey, ChannelRecord>, channels: Seq<NamedChannel>)
    requires
        channels.len() > 0,
    ensures
        known(m, channels) == known(m, channels.drop_last()).insert(
            channel_key(channels.last()),
            description(channels.last()),
        ),
{
    let f = |c: NamedChannel| channel_query(c);
    let queries = channels.map_values(f);
    assert(queries.drop_last() =~= channels.drop_last().map_values(f));
    assert(queries.last() == channel_query(channels.last()));
}

/// Each channel that is saved is held by its own description, whatever was held
/// before; of two descriptions of one channel, the later one.
pub proof fn law_a_saved_channel_is_held_as_described(
    m: Map<ChannelKey, ChannelRecord>,
    channels: Seq<NamedChannel>,
    i: int,
)
    requires
        0 <= i < channels.len(),
        forall|j: int|
            i < j < channels.len() ==> channel_key(#[trigger] channels[j]) != channel_key(
                channels[i],
            ),
    ensures
        known(m, channels).contains_key(channel_key(channels[i])),
        known(m, channels)[channel_key(channels[i])] == description(channels[i]),
    decreases channels.len(),
{
    lemma_known_step(m, channels);
    if i < channels.len() - 1 {
        let rest = channels.drop_last();
        assert(channel_key(channels[channels.len() - 1]) != channel_key(channels[i]));
        assert forall|j: int| i < j < rest.len() implies channel_key(#[trigger] rest[j])
            != channel_key(rest[i]) by {
            assert(rest[j] == channels[j]);
        }
        law_a_saved_channel_is_held_as_described(m, rest, i);
    }
}

/// Saving channels leaves every other stored channel as it was.
pub proof fn law_saving_channels_leaves_the_rest_alone(
    m: Map<ChannelKey, ChannelRecord>,
    channels: Seq<NamedChannel>,
    key: ChannelKey,
)
    requires
        forall|i: int| 0 <= i < channels.len() ==> key != channel_key(#[trigger] channels[i]),
    ensures
        known(m, channels).contains_key(key) <==> m.contains_key(key),
        m.contains_key(key) ==> known(m, channels)[key] == m[key],
    decreases channels.len(),
{
    if channels.len() > 0 {
        lemma_known_step(m, channels);
        let rest = channels.drop_last();
        assert(key != channel_key(channels[channels.len() - 1]));
        assert forall|i: int| 0 <= i < rest.len() implies key != channel_key(
            #[trigger] rest[i],
        ) by {
            assert(rest[i] == channels[i]);
        }
        law_saving_channels_leaves_the_rest_alone(m, rest, key);
    }
}

/// Every channel of a flattened account is held by its own description once it
/// is saved.
pub proof fn law_every_channel_of_an_account_is_held(
    m: Map<ChannelKey, ChannelRecord>,
    channels: Seq<NamedChannel>,
    all: Seq<NamedChannel>,
    i: int,
)
    requires
        emporia::each_once(channels, all),
        0 <= i < channels.len(),
    ensures
        known(m, channels).contains_key(channel_key(channels[i])),
        known(m, channels)[channel_key(channels[i])] == description(channels[i]),
{
    assert forall|j: int| i < j < channels.len() implies channel_key(#[trigger] channels[j])
        != channel_key(channels[i]) by {
        if channel_key(channels[j]) == channel_key(channels[i]) {
            emporia::law_no_channel_occurs_twice(channels, all, i, j);
        }
    }
    law_a_saved_channel_is_held_as_described(m, channels, i);
}

/// What records a reading of a series.
pub open spec fn reading_query(series: SeriesView, r: Reading) -> QueryView {
    QueryView {
        sql: SAVE_READING@,
        params: seq![
            ParamView::Int(series.device_gid),
            ParamView::Text(series.channel_num),
            ParamView::Text(series.scale.name()),
            ParamView::Moment(r.instant@),
            ParamView::Double(r.kwh),
        ],
    }
}

fn save_reading(series: &Series, r: &Reading) -> (q: Query)
    ensures
        q@ == reading_query(series@, *r),
{
    let mut params: Vec<Param> = Vec::new();
    params.push(Param::Int(series.device_gid));
    params.push(Param::Text(series.channel_num.clone()));
    params.push(Param::Text(series.scale.api_name().to_owned()));
    params.push(Param::Moment(r.instant));
    params.push(Param::Double(r.kwh));
    assert(param_views(params@) =~= reading_query(series@, *r).params);
    Query { sql: SAVE_READING.to_owned(), params }
}

/// What records the readings of a series, one by one in their order; it is one
/// transaction.
pub fn save_readings(series: &Series, readings: &Vec<Reading>) -> (queries: Vec<Query>)
    ensures
        query_views(queries@) == readings@.map_values(|r: Reading| reading_query(series@, r)),
        queries@.len() == readings@.len(),
{
    let mut queries: Vec<Query> = Vec::new();
    let mut i: usize = 0;
    while i < readings.len()
        invariant
            i <= readings.len(),
            query_views(queries@) == readings@.take(i as int).map_values(
                |r: Reading| reading_query(series@, r),
            ),
        decreases readings.len() - i,
    {
        let ghost was = queries@;
        let q = save_reading(series, &readings[i]);
        queries.push(q);
        proof {
            let f = |r: Reading| reading_query(series@, r);
            assert(query_views(queries@) =~= query_views(was).push(q@));
            assert(readings@.take(i + 1).map_values(f) =~= readings@.take(i as int).map_values(
                f,
            ).push(reading_query(series@, readings@[i as int])));
        }
        i = i + 1;
    }
    assert(readings@.take(readings@.len() as int) =~= readings@);
    assert(query_views(queries@).len() == readings@.len());
    queries
}

/// What tells one stored reading from every other: its monitor, its channel, the
/// name of its scale, and its instant.
pub struct ReadingKey {
    pub device_gid: i64,
    pub channel_num: Seq<char>,
    pub scale: Seq<char>,
    pub instant: int,
}

/// The stored readings after a query that records one: what the key of its
/// values held is replaced by its energy.
pub open spec fn upserted(m: Map<ReadingKey, u64>, q: QueryView) -> Map<ReadingKey, u64> {
    if q.sql
        == "INSERT INTO reading (device_gid, channel_num, scale, instant, kwh) VALUES ($1,$2,$3,$4,$5) ON CONFLICT (device_gid, channel_num, scale, instant) DO UPDATE SET kwh = EXCLUDED.kwh"@
        && q.params.len() == 5 {
        match (q.params[0], q.params[1], q.params[2], q.params[3], q.params[4]) {
            (
                ParamView::Int(device_gid),
                ParamView::Text(channel_num),
                ParamView::Text(scale),
                ParamView::Moment(instant),
                ParamView::Double(kwh),
            ) => m.insert(ReadingKey { device_gid, channel_num, scale, instant }, kwh),
            _ => m,
        }
    } else {
        m
    }
}

/// The stored readings after queries, one by one in their order.
pub open spec fn upserted_all(m: Map<ReadingKey, u64>, queries: Seq<QueryView>) -> Map<
    ReadingKey,
    u64,
>
    decreases queries.len(),
{
    if queries.len() == 0 {
        m
    } else {
        upserted(upserted_all(m, queries.drop_last()), queries.last())
    }
}

/// The stored readings after the queries that record the readings of a series.
pub open spec fn stored(
    m: Map<ReadingKey, u64>,
    series: SeriesView,
    readings: Seq<Reading>,
) -> Map<ReadingKey, u64> {
    upserted_all(m, readings.map_values(|r: Reading| reading_query(series, r)))
}

/// The key of a series at an instant.
pub open spec fn reading_key(series: SeriesView, instant: int) -> ReadingKey {
    ReadingKey {
        device_gid: series.device_gid,
        channel_num: series.channel_num,
        scale: series.scale.name(),
        instant,
    }
}

proof fn lemma_stored_step(m: Map<ReadingKey, u64>, series: SeriesView, readings: Seq<Reading>)
    requires
        readings.len() > 0,
    ensures
        stored(m, series, readings) == stored(m, series, readings.drop_last()).insert(
            reading_key(series, readings.last().instant@),
            readings.last().kwh,
        ),
{
    let f = |r: Reading| reading_query(series, r);
    let queries = readings.map_values(f);
    assert(queries.drop_last() =~= readings.drop_last().map_values(f));
    assert(queries.last() == reading_query(series, readings.last()));
}

/// The last of several readings of one instant is the one that is held, whatever
/// was held before.
pub proof fn law_the_last_reading_of_an_instant_is_held(
    m: Map<ReadingKey, u64>,
    series: SeriesView,
    readings: Seq<Reading>,
    i: int,
)
    requires
        0 <= i < readings.len(),
        forall|j: int| i < j < readings.len() ==> (#[trigger] readings[j]).instant@
            != readings[i].instant@,
    ensures
        stored(m, series, readings).contains_key(reading_key(series, readings[i].instant@)),
        stored(m, series, readings)[reading_key(series, readings[i].instant@)]
            == readings[i].kwh,
    decreases readings.len(),
{
    lemma_stored_step(m, series, readings);
    if i < readings.len() - 1 {
        let rest = readings.drop_last();
        assert(readings[readings.len() - 1].instant@ != readings[i].instant@);
        assert forall|j: int| i < j < rest.len() implies (#[trigger] rest[j]).instant@
            != rest[i].instant@ by {
            assert(rest[j] == readings[j]);
        }
        law_the_last_reading_of_an_instant_is_held(m, series, rest, i);
    }
}

/// Saving the readings of a series leaves every other stored reading as it was:
/// those of other series, and those of the series at other instants.
pub proof fn law_saving_leaves_the_rest_alone(
    m: Map<ReadingKey, u64>,
    series: SeriesView,
    readings: Seq<Reading>,
    key: ReadingKey,
)
    requires
        forall|i: int| 0 <= i < readings.len() ==> key != reading_key(
            series,
            (#[trigger] readings[i]).instant@,
        ),
    ensures
        stored(m, series, readings).contains_key(key) <==> m.contains_key(key),
        m.contains_key(key) ==> stored(m, series, readings)[key] == m[key],
    decreases readings.len(),
{
    if readings.len() > 0 {
        lemma_stored_step(m, series, readings);
        let rest = readings.drop_last();
        assert(key != reading_key(series, readings[readings.len() - 1].instant@));
        assert forall|i: int| 0 <= i < rest.len() implies key != reading_key(
            series,
            (#[trigger] rest[i]).instant@,
        ) by {
            assert(rest[i] == readings[i]);
        }
        law_saving_leaves_the_rest_alone(m, series, rest, key);
    }
}

/// The last position of an instant among readings that hold it.
proof fn lemma_last_position(readings: Seq<Reading>, i: int) -> (k: int)
    requires
        0 <= i < readings.len(),
    ensures
        i <= k < readings.len(),
        readings[k].instant@ == readings[i].instant@,
        forall|j: int| k < j < readings.len() ==> (#[trigger] readings[j]).instant@
            != readings[k].instant@,
    decreases readings.len() - i,
{
    if exists|j: int|
        i < j < readings.len() && (#[trigger] readings[j]).instant@ == readings[i].instant@ {
        let j = choose|j: int|
            i < j < readings.len() && (#[trigger] readings[j]).instant@ == readings[i].instant@;
        lemma_last_position(readings, j)
    } else {
        i
    }
}

/// Saving the same readings again changes nothing, so a window may be fetched
/// again where it overlaps another.
pub proof fn law_saving_again_changes_nothing(
    m: Map<ReadingKey, u64>,
    series: SeriesView,
    readings: Seq<Reading>,
)
    ensures
        stored(stored(m, series, readings), series, readings) == stored(m, series, readings),
{
    let once = stored(m, series, readings);
    let twice = stored(once, series, readings);
    assert forall|key: ReadingKey|
        (#[trigger] twice.contains_key(key) <==> once.contains_key(key)) && (once.contains_key(key)
            ==> twice[key] == once[key]) by {
        if exists|i: int|
            0 <= i < readings.len() && key == reading_key(
                series,
                (#[trigger] readings[i]).instant@,
            ) {
            let i = choose|i: int|
                0 <= i < readings.len() && key == reading_key(
                    series,
                    (#[trigger] readings[i]).instant@,
                );
            let k = lemma_last_position(readings, i);
            law_the_last_reading_of_an_instant_is_held(m, series, readings, k);
            law_the_last_reading_of_an_instant_is_held(once, series, readings, k);
        } else {
            law_saving_leaves_the_rest_alone(once, series, readings, key);
        }
    }
    assert(twice =~= once);
}

/// What records that a pass has succeeded.
pub open spec fn success_query(authenticated_at: Option<Instant>) -> QueryView {
    QueryView {
        sql: RECORD_SUCCESS@,
        params: seq![ParamView::OptionalMoment(authenticated_at)],
    }
}

/// What records that a pass has failed.
pub open spec fn failure_query(message: Seq<char>, fatal: bool) -> QueryView {
    QueryView {
        sql: RECORD_FAILURE@,
        params: seq![ParamView::Text(message), ParamView::Bool(fatal)],
    }
}

/// What records that a pass has succeeded, and when the credential was signed
/// in, where that is known.
pub fn record_success(authenticated_at: Option<Instant>) -> (q: Query)
    ensures
        q@ == success_query(authenticated_at),
{
    let mut params: Vec<Param> = Vec::new();
    params.push(Param::OptionalMoment(authenticated_at));
    assert(param_views(params@) =~= seq![ParamView::OptionalMoment(authenticated_at)]);
    Query { sql: RECORD_SUCCESS.to_owned(), params }
}

/// What records that a pass has failed. `fatal` is the difference between a
/// network that wobbled and a service that collects nothing until a person acts.
pub fn record_failure(message: &str, fatal: bool) -> (q: Query)
    ensures
        q@ == failure_query(message@, fatal),
{
    let mut params: Vec<Param> = Vec::new();
    params.push(Param::Text(message.to_owned()));
    params.push(Param::Bool(fatal));
    assert(param_views(params@) =~= seq![ParamView::Text(message@), ParamView::Bool(fatal)]);
    Query { sql: RECORD_FAILURE.to_owned(), params }
}

/// How the store is reached, in words that its driver reads.
pub open spec fn connection_view(db: DbView) -> Seq<char> {
    "host="@ + db.host + " port="@ + text::digits(db.port as nat) + " dbname="@ + db.name
        + " user="@ + db.user + " password="@ + db.password + " connect_timeout=10"@
}

/// How the store is reached, in words that its driver reads.
pub fn connection_text(db: &Db) -> (s: String)
    ensures
        s@ == connection_view(db@),
{
    let mut s = "host=".to_owned();
    s.append(db.host.as_str());
    s.append(" port=");
    s.append(text::decimal(db.port as u64).as_str());
    s.append(" dbname=");
    s.append(db.name.as_str());
    s.append(" user=");
    s.append(db.user.as_str());
    s.append(" password=");
    s.append(db.password.as_str());
    s.append(" connect_timeout=10");
    s
}

/// The newest instant of a series, as the store gives it.
#[derive(Debug, PartialEq, Eq)]
pub struct MarkRow {
    pub device_gid: i64,
    pub channel_num: String,
    pub scale: String,
    pub newest: Option<Instant>,
}

/// The series of a row, at a scale.
pub open spec fn series_of(r: MarkRow, scale: Scale) -> SeriesView {
    SeriesView { device_gid: r.device_gid, channel_num: r.channel_num@, scale }
}

/// What rows say of each series. A row of a scale that is not known here says
/// nothing; of two rows of one series, the later one stands.
pub open spec fn marks_of(rows: Seq<MarkRow>) -> Map<SeriesView, Watermark>
    decreases rows.len(),
{
    if rows.len() == 0 {
        Map::empty()
    } else {
        let before = marks_of(rows.drop_last());
        let row = rows.last();
        match scale::scale_called(row.scale@) {
            Some(scale) => before.insert(
                series_of(row, scale),
                Watermark { newest: row.newest },
            ),
            None => before,
        }
    }
}

/// What a map says of a series: nothing, where it does not hold it.
pub open spec fn mark_in(marks: Map<SeriesView, Watermark>, s: SeriesView) -> Watermark {
    if marks.contains_key(s) {
        marks[s]
    } else {
        Watermark { newest: None }
    }
}

/// The newest instant held of each series.
#[derive(Debug, PartialEq, Eq)]
pub struct Watermarks {
    pub rows: Vec<MarkRow>,
}

impl View for Watermarks {
    type V = Map<SeriesView, Watermark>;

    open spec fn view(&self) -> Map<SeriesView, Watermark> {
        marks_of(self.rows@)
    }
}

/// What the store holds of each series, from its rows.
pub fn watermarks(rows: Vec<MarkRow>) -> (w: Watermarks)
    ensures
        w@ == marks_of(rows@),
{
    Watermarks { rows }
}

impl Watermarks {
    /// The newest instant held of a series, or that there is none.
    pub fn get(&self, s: &Series) -> (w: Watermark)
        ensures
            w == mark_in(self@, s@),
    {
        let mut i: usize = self.rows.len();
        assert(self.rows@.take(i as int) =~= self.rows@);
        while i > 0
            invariant
                i <= self.rows.len(),
                mark_in(self@, s@) == mark_in(marks_of(self.rows@.take(i as int)), s@),
            decreases i,
        {
            let row = &self.rows[i - 1];
            assert(self.rows@.take(i as int).drop_last() =~= self.rows@.take(i - 1));
            match Scale::called(row.scale.as_str()) {
                Some(scale) => if row.device_gid == s.device_gid && scale == s.scale && text::same(
                    row.channel_num.as_str(),
                    s.channel_num.as_str(),
                ) {
                    return Watermark { newest: row.newest };
                },
                None => {},
            }
            i = i - 1;
        }
        Watermark { newest: None }
    }
}

/// A row of a scale that is not known here leaves every series as it was.
pub proof fn law_unknown_scales_are_left_alone(rows: Seq<MarkRow>, row: MarkRow)
    requires
        scale::scale_called(row.scale@) is None,
    ensures
        marks_of(rows.push(row)) == marks_of(rows),
{
    assert(rows.push(row).drop_last() =~= rows);
}

/// A row says what is held of its own series, and leaves every other as it was.
pub proof fn law_a_row_marks_its_own_series(
    rows: Seq<MarkRow>,
    row: MarkRow,
    scale: Scale,
    other: SeriesView,
)
    requires
        row.scale@ == scale.name(),
    ensures
        mark_in(marks_of(rows.push(row)), series_of(row, scale)) == (Watermark {
            newest: row.newest,
        }),
        other != series_of(row, scale) ==> mark_in(marks_of(rows.push(row)), other) == mark_in(
            marks_of(rows),
            other,
        ),
{
    assert(rows.push(row).drop_last() =~= rows);
    scale::law_a_scale_is_found_by_its_name(scale);
}

/// Whether a stored reading is one of those that a row speaks of.
pub open spec fn of_row(key: ReadingKey, r: MarkRow) -> bool {
    key.device_gid == r.device_gid && key.channel_num == r.channel_num@ && key.scale == r.scale@
}

/// Whether rows are what [`WATERMARKS`] selects from the stored readings: one row
/// for each monitor, channel and scale name that has a reading, with the greatest
/// instant of its readings.
pub open spec fn selected(rows: Seq<MarkRow>, m: Map<ReadingKey, u64>) -> bool {
    &&& forall|i: int| 0 <= i < rows.len() ==> is_newest(#[trigger] rows[i], m)
    &&& forall|key: ReadingKey| #[trigger] m.contains_key(key) ==> has_row(rows, key)
    &&& forall|i: int, j: int|
        0 <= i < j < rows.len() ==> !same_group(#[trigger] rows[i], #[trigger] rows[j])
}

/// Whether two rows speak of the same monitor, channel and scale name.
pub open spec fn same_group(a: MarkRow, b: MarkRow) -> bool {
    a.device_gid == b.device_gid && a.channel_num@ == b.channel_num@ && a.scale@ == b.scale@
}

/// Whether some row speaks of a stored reading.
pub open spec fn has_row(rows: Seq<MarkRow>, key: ReadingKey) -> bool {
    exists|i: int| 0 <= i < rows.len() && of_row(key, #[trigger] rows[i])
}

/// Whether the instant of a row is the greatest of the stored readings that it
/// speaks of.
pub open spec fn is_newest(r: MarkRow, m: Map<ReadingKey, u64>) -> bool {
    &&& r.newest matches Some(t)
    &&& m.contains_key(
        ReadingKey {
            device_gid: r.device_gid,
            channel_num: r.channel_num@,
            scale: r.scale@,
            instant: t@,
        },
    )
    &&& forall|key: ReadingKey| #[trigger]
        m.contains_key(key) && of_row(key, r) ==> key.instant <= t@
}

/// Whether a row speaks of a series.
spec fn of_series(r: MarkRow, s: SeriesView) -> bool {
    r.device_gid == s.device_gid && r.channel_num@ == s.channel_num && r.scale@ == s.scale.name()
}

/// What rows say of a series is what the last row that speaks of it says.
proof fn lemma_marks_of(rows: Seq<MarkRow>, s: SeriesView) -> (i: int)
    ensures
        marks_of(rows).contains_key(s) ==> 0 <= i < rows.len() && of_series(rows[i], s)
            && marks_of(rows)[s] == (Watermark { newest: rows[i].newest }),
        !marks_of(rows).contains_key(s) ==> forall|j: int|
            0 <= j < rows.len() ==> !of_series(#[trigger] rows[j], s),
    decreases rows.len(),
{
    if rows.len() == 0 {
        0
    } else {
        let rest = rows.drop_last();
        let last = rows.last();
        let i = lemma_marks_of(rest, s);
        scale::law_a_scale_is_found_by_its_name(s.scale);
        if of_series(last, s) {
            assert(series_of(last, s.scale) == s);
            rows.len() - 1
        } else {
            assert(marks_of(rows).contains_key(s) == marks_of(rest).contains_key(s));
            if !marks_of(rest).contains_key(s) {
                assert forall|j: int| 0 <= j < rows.len() implies !of_series(
                    #[trigger] rows[j],
                    s,
                ) by {
                    if j < rest.len() {
                        assert(rows[j] == rest[j]);
                    }
                }
            }
            i
        }
    }
}

/// A series has a mark exactly where a reading of it is stored, and the mark is
/// the greatest instant of its stored readings.
pub proof fn law_a_mark_is_the_newest_stored_reading(
    rows: Seq<MarkRow>,
    m: Map<ReadingKey, u64>,
    s: SeriesView,
)
    requires
        selected(rows, m),
    ensures
        mark_in(marks_of(rows), s).newest is Some <==> exists|instant: int|
            m.contains_key(#[trigger] reading_key(s, instant)),
        mark_in(marks_of(rows), s).newest matches Some(t) ==> m.contains_key(
            reading_key(s, t@),
        ) && forall|instant: int|
            m.contains_key(#[trigger] reading_key(s, instant)) ==> instant <= t@,
{
    let i = lemma_marks_of(rows, s);
    if marks_of(rows).contains_key(s) {
        assert(is_newest(rows[i], m));
        let t = rows[i].newest->0;
        assert(m.contains_key(reading_key(s, t@)));
        assert forall|instant: int| m.contains_key(
            #[trigger] reading_key(s, instant),
        ) implies instant <= t@ by {
            assert(of_row(reading_key(s, instant), rows[i]));
        }
    } else {
        assert forall|instant: int| !m.contains_key(#[trigger] reading_key(s, instant)) by {
            let key = reading_key(s, instant);
            if m.contains_key(key) {
                assert(has_row(rows, key));
                let j = choose|j: int| 0 <= j < rows.len() && of_row(key, #[trigger] rows[j]);
                assert(of_series(rows[j], s));
            }
        }
    }
}

/// Once readings of a series are saved, its mark is no earlier than any of them.
pub proof fn law_a_mark_is_no_earlier_than_what_is_saved(
    rows: Seq<MarkRow>,
    m: Map<ReadingKey, u64>,
    s: SeriesView,
    readings: Seq<Reading>,
    i: int,
)
    requires
        selected(rows, stored(m, s, readings)),
        0 <= i < readings.len(),
    ensures
        mark_in(marks_of(rows), s).newest matches Some(t) && readings[i].instant@ <= t@,
{
    let k = lemma_last_position(readings, i);
    law_the_last_reading_of_an_instant_is_held(m, s, readings, k);
    law_a_mark_is_the_newest_stored_reading(rows, stored(m, s, readings), s);
}

/// The state of the service, as the store keeps it.
#[derive(Debug, PartialEq, Eq)]
pub struct Health {
    pub last_success: Option<Instant>,
    pub last_error: Option<String>,
    pub ok: bool,
    pub authenticated_at: Option<Instant>,
}

/// The state of the service, its error as characters.
pub struct HealthView {
    pub last_success: Option<Instant>,
    pub last_error: Option<Seq<char>>,
    pub ok: bool,
    pub authenticated_at: Option<Instant>,
}

impl View for Health {
    type V = HealthView;

    open spec fn view(&self) -> HealthView {
        HealthView {
            last_success: self.last_success,
            last_error: text::view_of(self.last_error),
            ok: self.ok,
            authenticated_at: self.authenticated_at,
        }
    }
}

/// The state that is kept after a query that records a success or a failure, by
/// a store whose clock shows a moment.
pub open spec fn beaten(h: HealthView, q: QueryView, at: Instant) -> HealthView {
    if q.sql
        == "UPDATE heartbeat SET last_success = now(), last_error = NULL, ok = TRUE, authenticated_at = COALESCE($1, authenticated_at) WHERE id"@
        && q.params.len() == 1 {
        match q.params[0] {
            ParamView::OptionalMoment(signed_in) => HealthView {
                last_success: Some(at),
                last_error: None,
                ok: true,
                authenticated_at: match signed_in {
                    Some(t) => Some(t),
                    None => h.authenticated_at,
                },
            },
            _ => h,
        }
    } else if q.sql == "UPDATE heartbeat SET last_error = $1, ok = NOT $2 AND ok WHERE id"@
        && q.params.len() == 2 {
        match (q.params[0], q.params[1]) {
            (ParamView::Text(message), ParamView::Bool(fatal)) => HealthView {
                last_success: h.last_success,
                last_error: Some(message),
                ok: !fatal && h.ok,
                authenticated_at: h.authenticated_at,
            },
            _ => h,
        }
    } else {
        h
    }
}

/// A failure that is recorded: what was said, whether it is fatal, and when.
pub struct FailureBeat {
    pub message: Seq<char>,
    pub fatal: bool,
    pub at: Instant,
}

/// The state that is kept after failures, one by one in their order.
pub open spec fn after_failures(h: HealthView, failures: Seq<FailureBeat>) -> HealthView
    decreases failures.len(),
{
    if failures.len() == 0 {
        h
    } else {
        let f = failures.last();
        beaten(
            after_failures(h, failures.drop_last()),
            failure_query(f.message, f.fatal),
            f.at,
        )
    }
}

proof fn lemma_records_differ()
    ensures
        RECORD_SUCCESS@ != RECORD_FAILURE@,
{
    reveal_strlit(
        "UPDATE heartbeat SET last_success = now(), last_error = NULL, ok = TRUE, authenticated_at = COALESCE($1, authenticated_at) WHERE id",
    );
    reveal_strlit("UPDATE heartbeat SET last_error = $1, ok = NOT $2 AND ok WHERE id");
    assert(RECORD_SUCCESS@[26] == 's');
    assert(RECORD_FAILURE@[26] == 'e');
}

/// A success makes the state good from its moment on and clears the error, and a
/// sign-in time that is not known keeps the old one.
pub proof fn law_a_success_is_recorded(h: HealthView, signed_in: Option<Instant>, at: Instant)
    ensures
        ({
            let after = beaten(h, success_query(signed_in), at);
            &&& after.ok && after.last_success == Some(at) && after.last_error is None
            &&& signed_in is Some ==> after.authenticated_at == signed_in
            &&& signed_in is None ==> after.authenticated_at == h.authenticated_at
        }),
{
}

/// A failure is recorded in its own words. Only a fatal one spoils the state; it
/// forgets neither the last success nor the sign-in.
pub proof fn law_a_failure_is_recorded(
    h: HealthView,
    message: Seq<char>,
    fatal: bool,
    at: Instant,
)
    ensures
        ({
            let after = beaten(h, failure_query(message, fatal), at);
            &&& after.ok == (!fatal && h.ok)
            &&& after.last_error == Some(message)
            &&& after.last_success == h.last_success
            &&& after.authenticated_at == h.authenticated_at
        }),
{
    lemma_records_differ();
}

/// A state that is spoilt stays so through whatever failures follow.
pub proof fn law_failures_mend_nothing(h: HealthView, failures: Seq<FailureBeat>)
    ensures
        !h.ok ==> !after_failures(h, failures).ok,
        (forall|i: int| 0 <= i < failures.len() ==> !(#[trigger] failures[i]).fatal)
            ==> after_failures(h, failures).ok == h.ok,
        after_failures(h, failures).last_success == h.last_success,
        after_failures(h, failures).authenticated_at == h.authenticated_at,
    decreases failures.len(),
{
    if failures.len() > 0 {
        let rest = failures.drop_last();
        let f = failures.last();
        law_failures_mend_nothing(h, rest);
        law_a_failure_is_recorded(after_failures(h, rest), f.message, f.fatal, f.at);
        if forall|i: int| 0 <= i < failures.len() ==> !(#[trigger] failures[i]).fatal {
            assert(!failures[failures.len() - 1].fatal);
            assert forall|i: int| 0 <= i < rest.len() implies !(#[trigger] rest[i]).fatal by {
                assert(rest[i] == failures[i]);
            }
        }
    }
}

/// How many readings of a scale are held, as the store gives it.
#[derive(Debug, PartialEq, Eq)]
pub struct CountRow {
    pub scale: String,
    pub count: i64,
}

/// The counts of the scales that are known here.
pub open spec fn known_counts(rows: Seq<CountRow>) -> Seq<(Scale, i64)>
    decreases rows.len(),
{
    if rows.len() == 0 {
        seq![]
    } else {
        let before = known_counts(rows.drop_last());
        match scale::scale_called(rows.last().scale@) {
            Some(scale) => before.push((scale, rows.last().count)),
            None => before,
        }
    }
}

/// The order of counts: the finer scale first.
pub open spec fn finer_first() -> spec_fn((Scale, i64), (Scale, i64)) -> bool {
    |a: (Scale, i64), b: (Scale, i64)| a.0.rank() < b.0.rank()
}

fn rank_of(s: Scale) -> (n: u8)
    ensures
        n == s.rank(),
{
    match s {
        Scale::Minute => 0,
        Scale::QuarterHour => 1,
        Scale::Hour => 2,
        Scale::Day => 3,
    }
}

fn finer(a: &(Scale, i64), b: &(Scale, i64)) -> (r: bool)
    ensures
        r == finer_first()(*a, *b),
{
    rank_of(a.0) < rank_of(b.0)
}

/// How many readings are held of each scale that is known here, the finest
/// first.
pub fn counts(rows: &Vec<CountRow>) -> (out: Vec<(Scale, i64)>)
    ensures
        sort::sorted_from(out@, known_counts(rows@), finer_first()),
{
    let mut known: Vec<(Scale, i64)> = Vec::new();
    let mut i: usize = 0;
    assert(rows@.take(0) =~= Seq::<CountRow>::empty());
    while i < rows.len()
        invariant
            i <= rows.len(),
            known@ == known_counts(rows@.take(i as int)),
        decreases rows.len() - i,
    {
        assert(rows@.take(i + 1).drop_last() =~= rows@.take(i as int));
        match Scale::called(rows[i].scale.as_str()) {
            Some(scale) => {
                known.push((scale, rows[i].count));
            },
            None => {},
        }
        i = i + 1;
    }
    assert(rows@.take(rows@.len() as int) =~= rows@);
    sort::sorted(known, finer, Ghost(finer_first()))
}

/// The words in which a channel and a reading are recorded, a success and a
/// failure, and the marks, the state and the counts are asked for.
pub proof fn law_the_words_of_each_record(
    c: NamedChannel,
    series: SeriesView,
    r: Reading,
    signed_in: Option<Instant>,
    message: Seq<char>,
    fatal: bool,
)
    ensures
        channel_query(c).sql
            == "INSERT INTO channel (device_gid, channel_num, device_name, name, kind, multiplier, merged_into, seen_at) VALUES ($1,$2,$3,$4,$5,$6,$7, now()) ON CONFLICT (device_gid, channel_num) DO UPDATE SET device_name = EXCLUDED.device_name, name = EXCLUDED.name, kind = EXCLUDED.kind, multiplier = EXCLUDED.multiplier, merged_into = EXCLUDED.merged_into, seen_at = now()"@,
        reading_query(series, r).sql
            == "INSERT INTO reading (device_gid, channel_num, scale, instant, kwh) VALUES ($1,$2,$3,$4,$5) ON CONFLICT (device_gid, channel_num, scale, instant) DO UPDATE SET kwh = EXCLUDED.kwh"@,
        success_query(signed_in).sql
            == "UPDATE heartbeat SET last_success = now(), last_error = NULL, ok = TRUE, authenticated_at = COALESCE($1, authenticated_at) WHERE id"@,
        failure_query(message, fatal).sql
            == "UPDATE heartbeat SET last_error = $1, ok = NOT $2 AND ok WHERE id"@,
        WATERMARKS@
            == "SELECT device_gid, channel_num, scale, MAX(instant) FROM reading GROUP BY device_gid, channel_num, scale"@,
        HEALTH@ == "SELECT last_success, last_error, ok, authenticated_at FROM heartbeat WHERE id"@,
        COUNTS@ == "SELECT scale, count(*) FROM reading GROUP BY scale"@,
{
}

/// The values that go with a record are those of the channel, the reading, the
/// sign-in and the failure themselves, in the order of the columns.
pub proof fn law_the_values_of_each_record(
    c: NamedChannel,
    series: SeriesView,
    r: Reading,
    signed_in: Option<Instant>,
    message: Seq<char>,
    fatal: bool,
)
    ensures
        channel_query(c).params == seq![
            ParamView::Int(c.device_gid),
            ParamView::Text(c.channel_num@),
            ParamView::OptionalText(text::view_of(c.device_name)),
            ParamView::OptionalText(text::view_of(c.name)),
            ParamView::Text(c.kind.word()),
            ParamView::OptionalDouble(c.multiplier),
            ParamView::OptionalText(text::view_of(c.merged_into)),
        ],
        reading_query(series, r).params == seq![
            ParamView::Int(series.device_gid),
            ParamView::Text(series.channel_num),
            ParamView::Text(series.scale.name()),
            ParamView::Moment(r.instant@),
            ParamView::Double(r.kwh),
        ],
        success_query(signed_in).params == seq![ParamView::OptionalMoment(signed_in)],
        failure_query(message, fatal).params == seq![
            ParamView::Text(message),
            ParamView::Bool(fatal),
        ],
{
}

/// Once readings of a series are saved, each instant that is among them holds the
/// energy of the last reading of it, under the series' own monitor, channel and
/// scale, and everything else is as it was.
pub proof fn law_what_is_held_after_saving(
    m: Map<ReadingKey, u64>,
    s: SeriesView,
    readings: Seq<Reading>,
    key: ReadingKey,
    i: int,
)
    requires
        0 <= i < readings.len() ==> forall|j: int|
            i < j < readings.len() ==> (#[trigger] readings[j]).instant@ != readings[i].instant@,
    ensures
        ({
            let after = stored(m, s, readings);
            let saved = |r: Reading|
                key == (ReadingKey {
                    device_gid: s.device_gid,
                    channel_num: s.channel_num,
                    scale: match s.scale {
                        Scale::Minute => "1MIN"@,
                        Scale::QuarterHour => "15MIN"@,
                        Scale::Hour => "1H"@,
                        Scale::Day => "1D"@,
                    },
                    instant: r.instant@,
                });
            &&& 0 <= i < readings.len() && saved(readings[i]) ==> after.contains_key(key)
                && after[key] == readings[i].kwh
            &&& (forall|k: int| 0 <= k < readings.len() ==> !saved(#[trigger] readings[k])) ==> (
            after.contains_key(key) <==> m.contains_key(key)) && (m.contains_key(key)
                ==> after[key] == m[key])
        }),
{
    if 0 <= i < readings.len() {
        law_the_last_reading_of_an_instant_is_held(m, s, readings, i);
    }
    if forall|k: int|
        0 <= k < readings.len() ==> key != reading_key(s, (#[trigger] readings[k]).instant@) {
        law_saving_leaves_the_rest_alone(m, s, readings, key);
    }
}

/// Once channels are saved, each key that is among them holds the last description
/// that was given of it, word for word, and everything else is as it was.
pub proof fn law_what_is_known_after_saving(
    m: Map<ChannelKey, ChannelRecord>,
    channels: Seq<NamedChannel>,
    key: ChannelKey,
    i: int,
)
    requires
        0 <= i < channels.len() ==> forall|j: int|
            i < j < channels.len() ==> !((#[trigger] channels[j]).device_gid
                == channels[i].device_gid && channels[j].channel_num@ == channels[i].channel_num@),
    ensures
        ({
            let after = known(m, channels);
            let saved = |c: NamedChannel|
                key.device_gid == c.device_gid && key.channel_num == c.channel_num@;
            &&& 0 <= i < channels.len() && saved(channels[i]) ==> {
                &&& after.contains_key(key)
                &&& after[key].name == text::view_of(channels[i].name)
                &&& after[key].device_name == text::view_of(channels[i].device_name)
                &&& after[key].kind == channels[i].kind.word()
                &&& after[key].multiplier == channels[i].multiplier
                &&& after[key].merged_into == text::view_of(channels[i].merged_into)
            }
            &&& (forall|k: int| 0 <= k < channels.len() ==> !saved(#[trigger] channels[k])) ==> (
            after.contains_key(key) <==> m.contains_key(key)) && (m.contains_key(key)
                ==> after[key] == m[key])
        }),
{
    if 0 <= i < channels.len() {
        assert forall|j: int| i < j < channels.len() implies channel_key(#[trigger] channels[j])
            != channel_key(channels[i]) by {
        }
        law_a_saved_channel_is_held_as_described(m, channels, i);
    }
    if forall|k: int| 0 <= k < channels.len() ==> key != channel_key(#[trigger] channels[k]) {
        law_saving_channels_leaves_the_rest_alone(m, channels, key);
    }
}

/// What is held of a series is what the last row of its monitor, its channel and
/// its scale's own name says, and nothing where there is no such row.
pub proof fn law_a_mark_is_the_last_row_of_its_series(rows: Seq<MarkRow>, s: SeriesView, i: int)
    requires
        0 <= i < rows.len() ==> forall|j: int|
            i < j < rows.len() ==> !((#[trigger] rows[j]).device_gid == s.device_gid
                && rows[j].channel_num@ == s.channel_num && rows[j].scale@ == s.scale.name()),
    ensures
        0 <= i < rows.len() && rows[i].device_gid == s.device_gid && rows[i].channel_num@
            == s.channel_num && rows[i].scale@ == s.scale.name() ==> mark_in(marks_of(rows), s)
            == (Watermark { newest: rows[i].newest }),
        (forall|j: int|
            0 <= j < rows.len() ==> !((#[trigger] rows[j]).device_gid == s.device_gid
                && rows[j].channel_num@ == s.channel_num && rows[j].scale@ == s.scale.name()))
            ==> mark_in(marks_of(rows), s).newest is None,
    decreases rows.len(),
{
    if rows.len() > 0 {
        let rest = rows.drop_last();
        let row = rows.last();
        assert(row == rows[rows.len() - 1]);
        assert forall|j: int| 0 <= j < rest.len() implies #[trigger] rest[j] == rows[j] by {
        }
        scale::law_a_scale_is_found_by_its_name(s.scale);
        if let Some(found) = scale::scale_called(row.scale@) {
            scale::law_a_name_is_that_of_one_scale_at_most(row.scale@, s.scale);
            scale::law_a_name_is_that_of_one_scale_at_most(row.scale@, found);
        }
        let of = |r: MarkRow|
            r.device_gid == s.device_gid && r.channel_num@ == s.channel_num && r.scale@
                == s.scale.name();
        if of(row) {
            assert(series_of(row, s.scale) == s);
            if 0 <= i < rows.len() - 1 {
                assert(!of(rows[rows.len() - 1]));
            }
        } else {
            assert(mark_in(marks_of(rows), s) == mark_in(marks_of(rest), s));
            let k = if i < rest.len() { i } else { -1 };
            law_a_mark_is_the_last_row_of_its_series(rest, s, k);
        }
    }
}

/// Of the counts those of known scales are kept, each with its own count, in their
/// order.
pub proof fn law_a_count_is_kept_with_its_scale(rows: Seq<CountRow>, row: CountRow, s: Scale)
    ensures
        known_counts(Seq::empty()).len() == 0,
        row.scale@ == s.name() ==> known_counts(rows.push(row)) == known_counts(rows).push(
            (s, row.count),
        ),
        row.scale@ != "1MIN"@ && row.scale@ != "15MIN"@ && row.scale@ != "1H"@ && row.scale@
            != "1D"@ ==> known_counts(rows.push(row)) == known_counts(rows),
{
    assert(rows.push(row).drop_last() =~= rows);
    scale::law_a_name_is_that_of_one_scale_at_most(row.scale@, s);
}

/// Counts come in the order of the length of their points, the shortest first.
pub proof fn law_the_finest_count_comes_first(a: (Scale, i64), b: (Scale, i64))
    ensures
        finer_first()(a, b) <==> a.0.step_seconds() < b.0.step_seconds(),
{
    scale::law_rank_orders_by_step(a.0, b.0);
}

/// How the store is reached names its host, port, database, user and password, each
/// by its own word, and gives up after ten seconds.
pub proof fn law_the_store_is_reached_as_told(db: DbView)
    ensures
        connection_view(db) == "host="@ + db.host + " port="@ + text::digits(db.port as nat)
            + " dbname="@ + db.name + " user="@ + db.user + " password="@ + db.password
            + " connect_timeout=10"@,
{
}

/// What is handed to the store is seen as it is, value by value and in order.
pub proof fn law_what_is_handed_over_is_seen_as_it_is(
    s: String,
    n: i64,
    b: bool,
    bits: u64,
    t: Instant,
    q: Query,
    i: int,
)
    ensures
        Param::Text(s)@ == ParamView::Text(s@),
        Param::OptionalText(Some(s))@ == ParamView::OptionalText(Some(s@)),
        Param::OptionalText(None)@ == ParamView::OptionalText(None),
        Param::Int(n)@ == ParamView::Int(n),
        Param::Bool(b)@ == ParamView::Bool(b),
        Param::Double(bits)@ == ParamView::Double(bits),
        Param::OptionalDouble(Some(bits))@ == ParamView::OptionalDouble(Some(bits)),
        Param::OptionalDouble(None)@ == ParamView::OptionalDouble(None),
        Param::Moment(t)@ == ParamView::Moment(t.nanos as int),
        Param::OptionalMoment(Some(t))@ == ParamView::OptionalMoment(Some(t)),
        Param::OptionalMoment(None)@ == ParamView::OptionalMoment(None),
        q@.sql == q.sql@,
        q@.params.len() == q.params@.len(),
        0 <= i < q.params@.len() ==> q@.params[i] == q.params@[i]@,
{
}

/// Queries are seen one by one, and the state as it is kept.
pub proof fn law_records_are_seen_as_they_are(queries: Seq<Query>, i: int, h: Health)
    ensures
        query_views(queries).len() == queries.len(),
        0 <= i < queries.len() ==> query_views(queries)[i] == queries[i]@,
        h@.last_success == h.last_success,
        h@.last_error == text::view_of(h.last_error),
        h@.ok == h.ok,
        h@.authenticated_at == h.authenticated_at,
{
}

/// The tables: a channel is told by its monitor and number, a reading by these, its
/// scale and its instant, and there is one heartbeat.
pub proof fn law_the_tables_as_they_are_created()
    ensures
        SCHEMA@ == "
CREATE TABLE IF NOT EXISTS channel (
    device_gid   BIGINT NOT NULL,
    channel_num  TEXT   NOT NULL,
    device_name  TEXT,
    name         TEXT,
    kind         TEXT   NOT NULL,
    multiplier   DOUBLE PRECISION,
    seen_at      TIMESTAMPTZ NOT NULL DEFAULT now(),
    PRIMARY KEY (device_gid, channel_num)
);
CREATE TABLE IF NOT EXISTS reading (
    device_gid   BIGINT NOT NULL,
    channel_num  TEXT   NOT NULL,
    scale        TEXT   NOT NULL,
    instant      TIMESTAMPTZ NOT NULL,
    kwh          DOUBLE PRECISION NOT NULL,
    PRIMARY KEY (device_gid, channel_num, scale, instant)
);
CREATE INDEX IF NOT EXISTS reading_series_instant
    ON reading (device_gid, channel_num, scale, instant DESC);
CREATE TABLE IF NOT EXISTS heartbeat (
    id           BOOLEAN PRIMARY KEY DEFAULT TRUE,
    last_success TIMESTAMPTZ,
    last_error   TEXT,
    ok           BOOLEAN NOT NULL DEFAULT TRUE,
    authenticated_at TIMESTAMPTZ,
    CONSTRAINT heartbeat_single_row CHECK (id)
);
INSERT INTO heartbeat (id) VALUES (TRUE) ON CONFLICT (id) DO NOTHING;
ALTER TABLE heartbeat ADD COLUMN IF NOT EXISTS authenticated_at TIMESTAMPTZ;
ALTER TABLE channel ADD COLUMN IF NOT EXISTS merged_into TEXT;
"@,
{
}

} // verus!
