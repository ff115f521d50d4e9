use dynamo::plan::{instant_at, instant_fits, plan, Channel, Horizon, Series, Watermark};
use dynamo::scale::{Scale, SCALES};
use dynamo::time::{Duration, Instant};

fn at(s: &str) -> Instant {
    let t = chrono::DateTime::parse_from_rfc3339(s).unwrap();
    Instant::at(t.timestamp(), t.timestamp_subsec_nanos()).unwrap()
}

fn horizon() -> Horizon {
    Horizon { account_created: at("2025-01-29T12:34:40Z"), now: at("2026-08-17T18:00:00Z") }
}

fn one_channel() -> Vec<Channel> {
    vec![Channel { device_gid: 415375, channel_num: "1,2,3".into() }]
}

fn empty(_: &Series) -> Watermark {
    Watermark { newest: None }
}

#[test]
fn an_empty_store_asks_hourly_all_the_way_back_to_the_account() {
    let h = horizon();
    let p = plan(&one_channel(), &empty, &h);
    let hourly: Vec<_> = p.iter().filter(|f| f.series.scale == Scale::Hour).collect();
    assert_eq!(hourly.first().unwrap().start, h.account_created);
    assert_eq!(hourly.last().unwrap().end, h.now);
}

#[test]
fn an_empty_store_does_not_ask_minutes_for_more_than_the_vendor_keeps() {
    let h = horizon();
    let p = plan(&one_channel(), &empty, &h);
    let first = p.iter().find(|f| f.series.scale == Scale::Minute).expect("minutes planned");
    // Six days, not nineteen months.
    assert_eq!(first.start, h.now.minus(Duration::days(6)));
}

#[test]
fn no_chunk_exceeds_the_ceiling_the_api_quoted() {
    let h = horizon();
    for f in plan(&one_channel(), &empty, &h) {
        assert!(
            f.end.since(f.start) <= f.series.scale.ceiling(),
            "{:?} spans {:?}, ceiling is {:?}",
            f.series.scale,
            f.end.since(f.start),
            f.series.scale.ceiling()
        );
    }
}

#[test]
fn chunks_are_contiguous_and_cover_the_whole_range() {
    let h = horizon();
    let p = plan(&one_channel(), &empty, &h);
    for scale in SCALES {
        let s: Vec<_> = p.iter().filter(|f| f.series.scale == scale).collect();
        for pair in s.windows(2) {
            assert_eq!(pair[0].end, pair[1].start, "{:?} left a gap between chunks", scale);
        }
        assert_eq!(s.last().unwrap().end, h.now);
    }
}

#[test]
fn resuming_overlaps_by_one_point_rather_than_risking_a_hole() {
    let h = horizon();
    let newest = h.now.minus(Duration::minutes(30));
    let marks = |s: &Series| Watermark {
        newest: if s.scale == Scale::Minute { Some(newest) } else { None },
    };
    let p = plan(&one_channel(), &marks, &h);
    let first = p.iter().find(|f| f.series.scale == Scale::Minute).unwrap();
    assert_eq!(first.start, newest.minus(Duration::minutes(1)));
}

#[test]
fn a_watermark_older_than_retention_starts_at_the_floor_not_at_the_watermark() {
    // Down for a fortnight: the minutes in that gap no longer exist anywhere.
    let h = horizon();
    let stale = h.now.minus(Duration::days(14));
    let marks = |s: &Series| Watermark {
        newest: if s.scale == Scale::Minute { Some(stale) } else { None },
    };
    let p = plan(&one_channel(), &marks, &h);
    let first = p.iter().find(|f| f.series.scale == Scale::Minute).unwrap();
    assert_eq!(first.start, h.now.minus(Duration::days(6)));
}

#[test]
fn a_watermark_at_now_plans_nothing() {
    let h = horizon();
    let marks = |_: &Series| Watermark { newest: Some(h.now) };
    let p = plan(&one_channel(), &marks, &h);
    // The overlap still pulls the start one step back, so a single window per
    // scale is correct and expected.
    assert!(p.iter().all(|f| f.end <= h.now));
    assert!(p.len() <= SCALES.len());
}

#[test]
fn minutes_are_planned_before_the_coarser_scales() {
    let h = horizon();
    let p = plan(&one_channel(), &empty, &h);
    let first_minute = p.iter().position(|f| f.series.scale == Scale::Minute);
    let first_day = p.iter().position(|f| f.series.scale == Scale::Day);
    assert!(first_minute.unwrap() < first_day.unwrap());
}

#[test]
fn nothing_is_planned_before_the_account_existed() {
    let h = horizon();
    for f in plan(&one_channel(), &empty, &h) {
        assert!(f.start >= h.account_created, "{:?} predates the account", f);
    }
}

#[test]
fn a_young_account_is_not_asked_for_a_year_of_quarter_hours() {
    let h = Horizon {
        account_created: at("2026-08-10T00:00:00Z"),
        now: at("2026-08-17T18:00:00Z"),
    };
    let p = plan(&one_channel(), &empty, &h);
    let q = p.iter().find(|f| f.series.scale == Scale::QuarterHour).unwrap();
    assert_eq!(q.start, h.account_created);
}

#[test]
fn instants_step_by_the_scale() {
    let first = at("2026-08-17T12:00:00Z");
    assert_eq!(instant_at(first, 3, Scale::QuarterHour), at("2026-08-17T12:45:00Z"));
    assert_eq!(
        instant_at(first, 0, Scale::Minute),
        first,
        "the first point is the instant the response named"
    );
}

#[test]
fn every_channel_gets_every_scale() {
    let h = horizon();
    let channels = vec![
        Channel { device_gid: 1, channel_num: "1,2,3".into() },
        Channel { device_gid: 2, channel_num: "97".into() },
    ];
    let p = plan(&channels, &empty, &h);
    for c in &channels {
        for s in SCALES {
            assert!(
                p.iter().any(|f| f.series.device_gid == c.device_gid
                    && f.series.channel_num == c.channel_num
                    && f.series.scale == s),
                "{:?} at {:?} was never planned",
                c,
                s
            );
        }
    }
}

#[test]
fn a_first_run_of_one_channel_is_so_many_windows() {
    let h = horizon();
    let p = plan(&one_channel(), &empty, &h);
    let count = |scale: Scale| p.iter().filter(|f| f.series.scale == scale).count();
    // 8640 minutes by 800, 360 days by 7, 13 589.4 hours by 800 and by 12 000.
    assert_eq!(count(Scale::Minute), 11);
    assert_eq!(count(Scale::QuarterHour), 52);
    assert_eq!(count(Scale::Hour), 17);
    assert_eq!(count(Scale::Day), 2);
}

#[test]
fn an_account_without_channels_has_no_work() {
    assert_eq!(plan(&[], &empty, &horizon()).len(), 0);
}

#[test]
fn each_series_is_asked_about_once() {
    let asked = std::cell::RefCell::new(Vec::new());
    let marks = |s: &Series| {
        asked.borrow_mut().push(s.clone());
        Watermark::default()
    };
    let h = horizon();
    plan(&one_channel(), &marks, &h);
    let scales: Vec<Scale> = asked.borrow().iter().map(|s| s.scale).collect();
    assert_eq!(scales, SCALES.to_vec());
}

#[test]
fn a_series_newer_than_now_is_not_asked_for() {
    let h = horizon();
    let marks = |_: &Series| Watermark { newest: Some(h.now.plus(Duration::days(3))) };
    assert_eq!(plan(&one_channel(), &marks, &h).len(), 0);
}

#[test]
fn a_point_beyond_the_last_moment_does_not_fit() {
    let first = at("2026-08-17T12:00:00Z");
    assert!(instant_fits(first, 1_000_000, Scale::Day));
    assert!(!instant_fits(first, 100_000_000, Scale::Day));
}
