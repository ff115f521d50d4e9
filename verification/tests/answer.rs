use dynamo::agent::{describe, Kind, Request, Span, MAX_ROWS};
use dynamo::answer::{
    answer, at, channels, kind_sql, narrow, nothing_called, now, now_told, resolve, scale_for,
    series, series_told, several_match, usage, usage_told, ChannelRow, Circuit, DrawRow, Match,
    PointRow, Question, Step, TotalRow, LABEL, SCAN_BUDGET,
};
use dynamo::json::Json;
use dynamo::scale::{Scale, SCALES};
use dynamo::store::Param;
use dynamo::time::{Duration, Instant, Zone};

fn moment(s: &str) -> Instant {
    let t = chrono::DateTime::parse_from_rfc3339(s).unwrap();
    Instant::at(t.timestamp(), t.timestamp_subsec_nanos()).unwrap()
}

fn span(days: i64) -> Span {
    let to = moment("2026-08-17T12:00:00Z");
    Span { from: to.minus(Duration::days(days)), to, named: "test" }
}

fn edt() -> Zone {
    Zone { east: -4 * 3600 }
}

fn text(s: &str) -> Json {
    Json::Text(s.to_string())
}

#[test]
fn a_day_is_answered_from_minutes_and_a_year_is_not() {
    assert_eq!(scale_for(&span(1)), Scale::Minute);
    assert_eq!(scale_for(&span(7)), Scale::QuarterHour);
    assert_eq!(scale_for(&span(30)), Scale::Hour);
    assert_eq!(scale_for(&span(365)), Scale::Day);
}

#[test]
fn every_span_stays_inside_the_scan_budget_or_is_already_at_the_coarsest_scale() {
    for days in [1, 2, 6, 7, 21, 30, 90, 365, 700, 9000] {
        let s = span(days);
        let scale = scale_for(&s);
        let points = s.to.since(s.from).num_seconds() / scale.step().num_seconds();
        assert!(
            points <= SCAN_BUDGET || scale == Scale::Day,
            "{days} days at {scale:?} scans {points} points a circuit"
        );
    }
}

#[test]
fn the_finest_scale_that_fits_is_the_one_chosen() {
    for days in [1, 2, 6, 7, 21, 30, 90, 365] {
        let s = span(days);
        let chosen = scale_for(&s);
        let seconds = s.to.since(s.from).num_seconds();
        for finer in SCALES.iter().copied() {
            if finer.step() < chosen.step() {
                assert!(
                    seconds / finer.step().num_seconds() > SCAN_BUDGET,
                    "{days} days chose {chosen:?} when {finer:?} would have fitted"
                );
            }
        }
    }
}

#[test]
fn circuits_counts_merged_channels_and_unmerged_legs_and_nothing_twice() {
    let sql = kind_sql(Kind::Circuits);
    assert!(sql.contains("'merged'"));
    assert!(sql.contains("merged_into IS NULL"));
    // Branch legs that are part of a merge must be excluded.
    assert!(!sql.contains("c.kind = 'branch')"), "{sql}");
}

#[test]
fn each_kind_is_filtered_by_its_own_word() {
    assert_eq!(kind_sql(Kind::Main), "c.kind = 'main'");
    assert_eq!(kind_sql(Kind::Branch), "c.kind = 'branch'");
    assert_eq!(kind_sql(Kind::Merged), "c.kind = 'merged'");
    assert_eq!(
        kind_sql(Kind::Circuits),
        "(c.kind = 'merged' OR (c.kind = 'branch' AND c.merged_into IS NULL))"
    );
}

fn m(gid: i64, num: &str, label: &str, kind: &str, merged: Option<&str>) -> Match {
    Match {
        device_gid: gid,
        channel_num: num.into(),
        label: label.into(),
        kind: kind.into(),
        merged_into: merged.map(str::to_string),
    }
}

#[test]
fn a_merged_circuit_beats_its_own_legs() {
    let matches = vec![
        m(415375, "7", "Water Heater", "branch", Some("Merged_99")),
        m(415375, "8", "Water Heater", "branch", Some("Merged_99")),
        m(415375, "99", "Water Heater", "merged", None),
    ];
    let narrowed = narrow(&matches, "Water Heater");
    assert_eq!(narrowed.len(), 1);
    assert_eq!(narrowed[0].channel_num, "99");
}

#[test]
fn an_exact_name_beats_a_substring() {
    let matches = vec![
        m(415375, "97", "GeoThermal", "merged", None),
        m(415375, "100", "GeoThermal Blower", "merged", None),
        m(415375, "104", "GeoThermal Aux Heat", "merged", None),
    ];
    let narrowed = narrow(&matches, "GeoThermal");
    assert_eq!(narrowed.len(), 1);
    assert_eq!(narrowed[0].label, "GeoThermal");
}

#[test]
fn two_real_circuits_of_the_same_name_stay_a_question() {
    let matches = vec![
        m(415375, "97", "GeoThermal", "merged", None),
        m(422778, "97", "GeoThermal", "merged", None),
    ];
    assert_eq!(narrow(&matches, "GeoThermal").len(), 2);
}

#[test]
fn an_unmerged_leg_sharing_a_name_with_a_merge_stays_a_question() {
    let matches = vec![
        m(415375, "99", "Water Heater", "merged", None),
        m(422818, "4", "Water Heater", "branch", None),
    ];
    assert_eq!(narrow(&matches, "Water Heater").len(), 2);
}

#[test]
fn a_substring_match_is_still_offered_when_nothing_matches_exactly() {
    let matches = vec![m(415375, "100", "GeoThermal Blower", "merged", None)];
    assert_eq!(narrow(&matches, "blower").len(), 1);
}

#[test]
fn an_unnamed_circuit_still_gets_a_label_that_identifies_it() {
    assert!(LABEL.contains("device_name"));
    assert!(LABEL.contains("channel_num"));
}

#[test]
fn a_name_is_exact_in_any_case_and_with_space_around_it() {
    let matches = vec![
        m(1, "97", "GeoThermal", "merged", None),
        m(1, "100", "GeoThermal Blower", "merged", None),
    ];
    assert_eq!(narrow(&matches, "  geothermal\t"), vec![matches[0].clone()]);
    assert_eq!(narrow(&[], "anything"), vec![]);
}

#[test]
fn a_leg_on_another_monitor_stays_a_question() {
    let matches = vec![
        m(1, "99", "Water Heater", "merged", None),
        m(2, "7", "Water Heater", "branch", Some("Merged_99")),
    ];
    assert_eq!(narrow(&matches, "Water Heater"), matches);
    let mains = vec![
        m(1, "99", "Panel", "merged", None),
        m(1, "1,2,3", "Panel", "main", Some("Merged_99")),
    ];
    assert_eq!(narrow(&mains, "Panel"), mains);
}

#[test]
fn the_budget_is_met_exactly_at_its_edge() {
    let to = moment("2026-08-17T12:00:00Z");
    let of = |seconds: i64| Span { from: to.minus(Duration::seconds(seconds)), to, named: "edge" };
    // 2000 points of a minute, and the last second before one more.
    assert_eq!(scale_for(&of(2_000 * 60 + 59)), Scale::Minute);
    assert_eq!(scale_for(&of(2_001 * 60)), Scale::QuarterHour);
    // A period that ends before it begins is one second long.
    assert_eq!(scale_for(&of(-500)), Scale::Minute);
}

#[test]
fn a_moment_is_told_on_the_local_clock() {
    let t = moment("2026-08-17T22:44:00Z");
    assert_eq!(at(t, edt()), "2026-08-17T18:44:00-04:00");
    assert_eq!(at(t, Zone { east: 0 }), "2026-08-17T22:44:00+00:00");
    assert_eq!(at(t, Zone { east: 19_800 }), "2026-08-18T04:14:00+05:30");
}

#[test]
fn the_description_needs_no_store() {
    assert_eq!(answer(&Request::Describe), Step::Reply(describe()));
    assert_eq!(answer(&Request::Channels), Step::Ask(Question::Channels));
    assert_eq!(answer(&Request::Now), Step::Ask(Question::Now));
}

#[test]
fn every_query_only_reads() {
    let questions = vec![
        Question::Channels,
        Question::Now,
        Question::Usage { span: span(1), kind: Kind::Circuits },
        Question::Circuit { query: "Dryer".into(), span: span(1), scale: Scale::Hour },
        Question::Points {
            circuit: Circuit { device_gid: 1, channel_num: "2".into(), label: "x".into() },
            span: span(1),
            scale: Scale::Hour,
        },
    ];
    for q in questions {
        let sql = q.query().sql;
        assert!(sql.starts_with("SELECT "), "{sql}");
        assert!(!sql.contains(';'), "{sql}");
    }
}

#[test]
fn a_usage_query_hands_over_its_scale_and_period() {
    let s = span(7);
    let step = answer(&Request::Usage { span: s, kind: Kind::Main });
    let Step::Ask(q) = step else {
        panic!("usage asks the store");
    };
    let query = q.query();
    assert!(query.sql.contains("c.kind = 'main'"), "{}", query.sql);
    assert_eq!(
        query.params,
        vec![Param::Text("15MIN".into()), Param::Moment(s.from), Param::Moment(s.to)]
    );
    assert_eq!(q.failed("no such column"), "cannot read usage: no such column");
}

#[test]
fn a_circuit_is_looked_up_by_part_of_its_name_or_by_its_channel() {
    let s = span(1);
    let q = Question::Circuit { query: "422818/4".into(), span: s, scale: Scale::Hour };
    let query = q.query();
    assert_eq!(
        query.params,
        vec![Param::Text("%422818/4%".into()), Param::Text("422818/4".into())]
    );
    assert!(query.sql.contains("ILIKE $1"), "{}", query.sql);
    assert_eq!(q.failed("gone"), "cannot look up a circuit: gone");
}

#[test]
fn one_circuit_is_asked_for_and_none_or_several_are_replied_to() {
    let s = span(1);
    let found = vec![m(7, "4", "Dryer", "branch", None)];
    let step = resolve("dryer", &s, Scale::Hour, &found);
    let circuit = Circuit { device_gid: 7, channel_num: "4".into(), label: "Dryer".into() };
    assert_eq!(step, Step::Ask(Question::Points { circuit, span: s, scale: Scale::Hour }));
    let Step::Ask(q) = step else {
        panic!("one circuit is asked for");
    };
    assert_eq!(
        q.query().params,
        vec![
            Param::Int(7),
            Param::Text("4".into()),
            Param::Text("1H".into()),
            Param::Moment(s.from),
            Param::Moment(s.to),
        ]
    );

    let Step::Reply(none) = resolve("a \"b\"", &s, Scale::Hour, &vec![]) else {
        panic!("nothing is replied to");
    };
    assert_eq!(none.get("ok"), Some(&Json::Bool(false)));
    assert_eq!(none.get("error"), Some(&text("no-such-circuit")));
    assert_eq!(
        none.get("message"),
        Some(&text("Nothing here is called \"a \\\"b\\\"\". `channels` lists them."))
    );

    let two = vec![m(1, "97", "GeoThermal", "merged", None), m(-2, "97", "GeoThermal", "merged", None)];
    let Step::Reply(several) = resolve("GeoThermal", &s, Scale::Hour, &two) else {
        panic!("several are replied to");
    };
    assert_eq!(several.get("error"), Some(&text("ambiguous")));
    assert_eq!(several.get("message"), Some(&text("2 circuits match \"GeoThermal\".")));
    let Some(Json::List(candidates)) = several.get("candidates") else {
        panic!("the candidates are a list");
    };
    assert_eq!(candidates[0].get("channel"), Some(&text("1/97")));
    assert_eq!(candidates[1].get("channel"), Some(&text("-2/97")));
    assert_eq!(candidates[1].get("circuit"), Some(&text("GeoThermal")));
}

#[test]
fn circuits_are_listed_with_and_without_a_monitor() {
    let row = |monitor: Option<&str>| ChannelRow {
        circuit: "Dryer".into(),
        monitor: monitor.map(str::to_string),
        channel: "101".into(),
        kind: "merged".into(),
        named: true,
    };
    let j = channels(&vec![row(Some("basement")), row(None)]);
    assert_eq!(j.get("count"), Some(&Json::Int(2)));
    let Some(Json::List(list)) = j.get("circuits") else {
        panic!("the circuits are a list");
    };
    assert_eq!(list[0].get("monitor"), Some(&text("basement")));
    assert_eq!(list[1].get("monitor"), Some(&Json::Null));
    assert_eq!(list[1].get("named"), Some(&Json::Bool(true)));
}

fn draw(circuit: &str, watts: f64, minute: &str) -> DrawRow {
    DrawRow {
        circuit: circuit.into(),
        watts: watts.to_bits(),
        rounded: watts.round().to_bits(),
        moment: moment(minute),
    }
}

#[test]
fn the_largest_draw_comes_first() {
    let values = [3.5, -0.0, f64::NAN, 0.0, -7.25, 3.5, f64::INFINITY, -f64::NAN, 1e-300];
    let rows: Vec<DrawRow> = values
        .iter()
        .enumerate()
        .map(|(i, w)| draw(&format!("c{i}"), *w, "2026-08-17T12:00:00Z"))
        .collect();
    let mut expected: Vec<(usize, f64)> = values.iter().copied().enumerate().collect();
    expected.sort_by(|a, b| b.1.total_cmp(&a.1));
    let j = now(rows, edt());
    let Some(Json::List(list)) = j.get("circuits") else {
        panic!("the circuits are a list");
    };
    let order: Vec<&Json> = list.iter().map(|c| c.get("circuit").unwrap()).collect();
    let wanted: Vec<Json> = expected.iter().map(|(i, _)| text(&format!("c{i}"))).collect();
    assert_eq!(order, wanted.iter().collect::<Vec<_>>());
}

#[test]
fn what_is_drawn_is_told_as_of_the_newest_reading() {
    let rows = vec![
        draw("a", 10.4, "2026-08-17T12:00:00Z"),
        draw("b", 20.6, "2026-08-17T12:02:00Z"),
        draw("c", 5.0, "2026-08-17T12:01:00Z"),
    ];
    let j = now(rows, edt());
    assert_eq!(j.get("unit"), Some(&text("W")));
    assert_eq!(j.get("as_of"), Some(&text("2026-08-17T08:02:00-04:00")));
    assert_eq!(j.get("count"), Some(&Json::Int(3)));
    let Some(Json::List(list)) = j.get("circuits") else {
        panic!("the circuits are a list");
    };
    assert_eq!(list[0].get("circuit"), Some(&text("b")));
    assert_eq!(list[0].get("watts"), Some(&Json::Real(21.0f64.to_bits())));
    assert_eq!(list[2].get("at"), Some(&text("2026-08-17T08:01:00-04:00")));

    let idle = now(vec![], edt());
    assert_eq!(idle.get("as_of"), Some(&Json::Null));
    assert_eq!(idle.get("circuits"), Some(&Json::List(vec![])));
    assert!(matches!(idle.get("note"), Some(Json::Text(s)) if s.contains("30 minutes")));
}

fn totals(n: usize) -> Vec<TotalRow> {
    (0..n).map(|i| TotalRow { circuit: format!("c{i}"), kwh: 1.5f64.to_bits() }).collect()
}

#[test]
fn a_page_of_usage_says_that_it_is_one() {
    for (matched, count, truncated) in [
        (0, 0, false),
        (3, 3, false),
        (MAX_ROWS, MAX_ROWS, false),
        (MAX_ROWS + 1, MAX_ROWS, true),
    ] {
        let j = usage(&span(1), Kind::Merged, edt(), &totals(matched), 2.5f64.to_bits());
        assert_eq!(j.get("matched"), Some(&Json::Int(matched as u64)));
        assert_eq!(j.get("count"), Some(&Json::Int(count as u64)));
        assert_eq!(j.get("truncated"), Some(&Json::Bool(truncated)));
        let Some(Json::List(list)) = j.get("circuits") else {
            panic!("the circuits are a list");
        };
        assert_eq!(list.len(), count);
    }
}

#[test]
fn usage_is_told_with_its_period_and_unit() {
    let j = usage(&span(7), Kind::Circuits, edt(), &totals(1), 2.5f64.to_bits());
    assert_eq!(j.get("period"), Some(&text("test")));
    assert_eq!(j.get("from"), Some(&text("2026-08-10T08:00:00-04:00")));
    assert_eq!(j.get("to"), Some(&text("2026-08-17T08:00:00-04:00")));
    assert_eq!(j.get("resolution"), Some(&text("15MIN")));
    assert_eq!(j.get("kind"), Some(&text("circuits")));
    assert_eq!(j.get("total_kwh"), Some(&Json::Real(2.5f64.to_bits())));
    assert_eq!(j.get("unit"), Some(&text("kWh")));
}

#[test]
fn a_page_of_readings_says_that_it_is_one() {
    let first = moment("2026-08-17T00:00:00Z");
    let rows: Vec<PointRow> = (0..MAX_ROWS as i64 + 5)
        .map(|i| PointRow {
            moment: first.plus(Duration::minutes(i)),
            kwh: 0.25f64.to_bits(),
            watts: 15_000.0f64.to_bits(),
        })
        .collect();
    let circuit = Circuit { device_gid: 422818, channel_num: "4".into(), label: "Dryer".into() };
    let j = series(&circuit, &span(1), Scale::Minute, edt(), &rows, 101.25f64.to_bits());
    assert_eq!(j.get("channel"), Some(&text("422818/4")));
    assert_eq!(j.get("circuit"), Some(&text("Dryer")));
    assert_eq!(j.get("resolution"), Some(&text("1MIN")));
    assert_eq!(j.get("matched"), Some(&Json::Int(405)));
    assert_eq!(j.get("count"), Some(&Json::Int(400)));
    assert_eq!(j.get("truncated"), Some(&Json::Bool(true)));
    let Some(Json::List(points)) = j.get("points") else {
        panic!("the points are a list");
    };
    assert_eq!(points.len(), 400);
    assert_eq!(points[399].get("at"), Some(&text("2026-08-17T02:39:00-04:00")));
    assert_eq!(points[0].get("kwh"), Some(&Json::Real(0.25f64.to_bits())));
    assert_eq!(points[0].get("watts"), Some(&Json::Real(15_000.0f64.to_bits())));
}

#[test]
fn a_reply_is_told_with_moments_as_they_are_written() {
    let rows = vec![draw("a", 10.4, "2026-08-17T12:00:00Z")];
    let j = now_told(&rows, &vec!["noon".to_string()], &Some("just now".to_string()));
    assert_eq!(j.get("as_of"), Some(&text("just now")));
    let Some(Json::List(list)) = j.get("circuits") else {
        panic!("the circuits are a list");
    };
    assert_eq!(list[0].get("at"), Some(&text("noon")));

    let j = usage_told("today", "dawn", "dusk", Scale::Day, Kind::Branch, &totals(2), 1);
    assert_eq!(j.get("from"), Some(&text("dawn")));
    assert_eq!(j.get("to"), Some(&text("dusk")));
    assert_eq!(j.get("resolution"), Some(&text("1D")));
    assert_eq!(j.get("kind"), Some(&text("branch")));

    let circuit = Circuit { device_gid: 1, channel_num: "4".into(), label: "Dryer".into() };
    let points = vec![PointRow { moment: moment("2026-08-17T12:00:00Z"), kwh: 1, watts: 2 }];
    let j = series_told(&circuit, "today", Scale::Hour, &points, &vec!["noon".to_string()], 3);
    let Some(Json::List(list)) = j.get("points") else {
        panic!("the points are a list");
    };
    assert_eq!(list[0].get("at"), Some(&text("noon")));
    assert_eq!(j.get("period"), Some(&text("today")));
}

#[test]
fn a_name_is_told_as_it_is_quoted() {
    assert_eq!(
        nothing_called("'x'").get("message"),
        Some(&text("Nothing here is called 'x'. `channels` lists them."))
    );
    let found = vec![m(1, "2", "a", "branch", None); 12];
    assert_eq!(
        several_match("'x'", &found).get("message"),
        Some(&text("12 circuits match 'x'."))
    );
}

#[test]
fn a_circuit_on_an_unnamed_monitor_is_told_by_the_gid() {
    // A null joined to a text is null, so what is joined is never null.
    assert!(LABEL.contains("coalesce(c.device_name, c.device_gid::text)"), "{LABEL}");
    assert!(!LABEL.contains("c.device_name ||"), "{LABEL}");
}
