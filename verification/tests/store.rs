use dynamo::config::Db;
use dynamo::emporia::{ChannelKind, NamedChannel, Reading};
use dynamo::plan::{Series, Watermark};
use dynamo::scale::Scale;
use dynamo::store::{
    connection_text, counts, record_failure, record_success, save_channels, save_readings,
    watermarks, CountRow, MarkRow, Param, SCHEMA,
};
use dynamo::time::Instant;
use std::collections::BTreeMap;

fn second(n: i64) -> Instant {
    Instant::at(n, 0).unwrap()
}

#[test]
fn the_store_is_reached_by_what_was_told() {
    let db = Db {
        host: "postgres".into(),
        port: 5432,
        name: "dynamo".into(),
        user: "me".into(),
        password: "pw".into(),
    };
    assert_eq!(
        connection_text(&db),
        "host=postgres port=5432 dbname=dynamo user=me password=pw connect_timeout=10"
    );
}

fn mark(gid: i64, num: &str, scale: &str, newest: Option<i64>) -> MarkRow {
    MarkRow {
        device_gid: gid,
        channel_num: num.into(),
        scale: scale.into(),
        newest: newest.map(second),
    }
}

fn series(gid: i64, num: &str, scale: Scale) -> Series {
    Series { device_gid: gid, channel_num: num.into(), scale }
}

#[test]
fn each_series_has_its_own_watermark() {
    let marks = watermarks(vec![
        mark(1, "2", "1MIN", Some(100)),
        mark(1, "2", "1H", Some(50)),
        mark(1, "3", "1MIN", None),
        mark(1, "2", "1S", Some(999)),
        mark(2, "2", "1MIN", Some(7)),
        mark(1, "2", "1H", Some(60)),
    ]);
    assert_eq!(marks.get(&series(1, "2", Scale::Minute)), Watermark { newest: Some(second(100)) });
    // Of two rows of one series, the later one stands.
    assert_eq!(marks.get(&series(1, "2", Scale::Hour)), Watermark { newest: Some(second(60)) });
    assert_eq!(marks.get(&series(2, "2", Scale::Minute)), Watermark { newest: Some(second(7)) });
    assert_eq!(marks.get(&series(1, "3", Scale::Minute)), Watermark::default());
    assert_eq!(marks.get(&series(1, "2", Scale::Day)), Watermark::default());
    assert_eq!(marks.get(&series(3, "2", Scale::Minute)), Watermark::default());
}

#[test]
fn counts_are_told_finest_first_and_unknown_scales_are_left_out() {
    let row = |scale: &str, count: i64| CountRow { scale: scale.into(), count };
    let rows = vec![row("1H", 3), row("1S", 9), row("1MIN", 4), row("1D", 1), row("15MIN", 2)];
    assert_eq!(
        counts(&rows),
        vec![
            (Scale::Minute, 4),
            (Scale::QuarterHour, 2),
            (Scale::Hour, 3),
            (Scale::Day, 1),
        ]
    );
    assert_eq!(counts(&vec![]), vec![]);
}

#[test]
fn a_channel_is_recorded_with_everything_known_of_it() {
    let c = NamedChannel {
        device_gid: 5,
        device_name: Some("basement".into()),
        channel_num: "7".into(),
        name: None,
        kind: ChannelKind::Branch,
        multiplier: Some(2.0f64.to_bits()),
        merged_into: Some("Merged_99".into()),
    };
    let queries = save_channels(&vec![c.clone(), c]);
    assert_eq!(queries.len(), 2);
    assert!(queries[1].sql.contains("ON CONFLICT (device_gid, channel_num) DO UPDATE"));
    assert_eq!(
        queries[1].params,
        vec![
            Param::Int(5),
            Param::Text("7".into()),
            Param::OptionalText(Some("basement".into())),
            Param::OptionalText(None),
            Param::Text("branch".into()),
            Param::OptionalDouble(Some(2.0f64.to_bits())),
            Param::OptionalText(Some("Merged_99".into())),
        ]
    );
}

#[test]
fn a_reading_replaces_the_one_before_it() {
    let s = series(5, "7", Scale::QuarterHour);
    let queries = save_readings(&s, &vec![Reading { instant: second(900), kwh: 1.5f64.to_bits() }]);
    assert_eq!(queries.len(), 1);
    assert!(queries[0].sql.contains("DO UPDATE SET kwh = EXCLUDED.kwh"));
    assert_eq!(
        queries[0].params,
        vec![
            Param::Int(5),
            Param::Text("7".into()),
            Param::Text("15MIN".into()),
            Param::Moment(second(900)),
            Param::Double(1.5f64.to_bits()),
        ]
    );
    assert_eq!(save_readings(&s, &vec![]), vec![]);
}

#[test]
fn the_heartbeat_is_handed_what_happened() {
    let ok = record_success(Some(second(5)));
    assert!(ok.sql.contains("COALESCE($1, authenticated_at)"));
    assert_eq!(ok.params, vec![Param::OptionalMoment(Some(second(5)))]);
    let bad = record_failure("gone", true);
    assert!(bad.sql.contains("ok = NOT $2 AND ok"));
    assert_eq!(bad.params, vec![Param::Text("gone".into()), Param::Bool(true)]);
}

#[test]
fn every_column_that_is_asked_for_exists() {
    for column in ["merged_into", "authenticated_at", "device_name", "channel_num", "kwh"] {
        assert!(SCHEMA.contains(column), "{column}");
    }
}

type Described = (Option<String>, Option<String>, String, Option<u64>, Option<String>);

/// Applies what is handed over as a table with the channels' key would.
fn describe(table: &mut BTreeMap<(i64, String), Described>, channels: &Vec<NamedChannel>) {
    for q in save_channels(channels) {
        match q.params.as_slice() {
            [Param::Int(gid), Param::Text(num), Param::OptionalText(device_name), Param::OptionalText(name), Param::Text(kind), Param::OptionalDouble(multiplier), Param::OptionalText(merged_into)] =>
            {
                table.insert(
                    (*gid, num.clone()),
                    (
                        device_name.clone(),
                        name.clone(),
                        kind.clone(),
                        *multiplier,
                        merged_into.clone(),
                    ),
                );
            }
            other => panic!("{other:?}"),
        }
    }
}

#[test]
fn each_saved_channel_holds_its_own_description() {
    let channel = |num: &str, name: &str, kind: ChannelKind, merged: Option<&str>| NamedChannel {
        device_gid: 5,
        device_name: None,
        channel_num: num.into(),
        name: Some(name.into()),
        kind,
        multiplier: None,
        merged_into: merged.map(str::to_string),
    };
    let mut table = BTreeMap::new();
    describe(
        &mut table,
        &vec![
            channel("11", "old", ChannelKind::Branch, None),
            channel("13", "kept", ChannelKind::Branch, None),
        ],
    );
    describe(
        &mut table,
        &vec![
            channel("11", "dryer", ChannelKind::Branch, Some("101")),
            channel("101", "Clothes Dryer", ChannelKind::Merged, None),
        ],
    );
    let held = |num: &str| table[&(5, num.to_string())].clone();
    let row = |name: &str, kind: &str, merged: Option<&str>| {
        (None, Some(name.to_string()), kind.to_string(), None, merged.map(str::to_string))
    };
    assert_eq!(held("11"), row("dryer", "branch", Some("101")));
    assert_eq!(held("101"), row("Clothes Dryer", "merged", None));
    assert_eq!(held("13"), row("kept", "branch", None));
    assert_eq!(table.len(), 3);
}

/// Selects from a table what the watermarks are made of.
fn newest(table: &BTreeMap<(i64, String, String, Instant), u64>) -> Vec<MarkRow> {
    let mut groups: BTreeMap<(i64, String, String), Instant> = BTreeMap::new();
    for (gid, num, scale, t) in table.keys() {
        groups.insert((*gid, num.clone(), scale.clone()), *t);
    }
    groups
        .into_iter()
        .map(|((device_gid, channel_num, scale), t)| MarkRow {
            device_gid,
            channel_num,
            scale,
            newest: Some(t),
        })
        .collect()
}

#[test]
fn a_mark_is_the_newest_of_the_saved_readings() {
    let r = |t: i64| Reading { instant: second(t), kwh: 0 };
    let mut table = BTreeMap::new();
    apply(&mut table, &series(5, "7", Scale::Hour), &vec![r(7200), r(3600)]);
    apply(&mut table, &series(5, "7", Scale::Minute), &vec![r(60)]);
    let marks = watermarks(newest(&table));
    assert_eq!(marks.get(&series(5, "7", Scale::Hour)).newest, Some(second(7200)));
    assert_eq!(marks.get(&series(5, "7", Scale::Minute)).newest, Some(second(60)));
    assert_eq!(marks.get(&series(5, "8", Scale::Hour)).newest, None);
}

/// Applies what is handed over as a table with the readings' key would.
fn apply(table: &mut BTreeMap<(i64, String, String, Instant), u64>, s: &Series, r: &Vec<Reading>) {
    for q in save_readings(s, r) {
        match q.params.as_slice() {
            [Param::Int(gid), Param::Text(num), Param::Text(scale), Param::Moment(t), Param::Double(kwh)] => {
                table.insert((*gid, num.clone(), scale.clone(), *t), *kwh);
            }
            other => panic!("{other:?}"),
        }
    }
}

#[test]
fn saving_again_changes_nothing_and_the_last_value_is_held() {
    let s = series(5, "7", Scale::Hour);
    let r = |t: i64, kwh: u64| Reading { instant: second(t), kwh };
    let mut table = BTreeMap::new();
    apply(&mut table, &series(5, "8", Scale::Hour), &vec![r(0, 9)]);
    apply(&mut table, &s, &vec![r(0, 1), r(3600, 2)]);
    let window = vec![r(3600, 3), r(7200, 4), r(3600, 5)];
    apply(&mut table, &s, &window);
    let once = table.clone();
    let key = |num: &str, t: i64| (5, num.to_string(), "1H".to_string(), second(t));
    assert_eq!(once[&key("7", 3600)], 5);
    assert_eq!(once[&key("7", 0)], 1);
    assert_eq!(once[&key("8", 0)], 9);
    assert_eq!(once.len(), 4);
    apply(&mut table, &s, &window);
    assert_eq!(table, once);
}
