use chrono::{DateTime, Datelike, FixedOffset, TimeZone, Utc};
use dynamo::time::{Duration, Instant, Zone, MAX_DAY, MAX_SECONDS, MIN_SECONDS, YEAR_9999_END, YEAR_ZERO};

fn outside(t: Instant) -> DateTime<Utc> {
    DateTime::from_timestamp(t.timestamp(), t.subsec_nanos()).unwrap()
}

#[test]
fn the_first_and_the_last_moment_are_those_of_the_calendar() {
    assert_eq!(DateTime::<Utc>::MIN_UTC.timestamp(), MIN_SECONDS);
    assert_eq!(DateTime::<Utc>::MAX_UTC.timestamp(), MAX_SECONDS);
    assert_eq!(MAX_SECONDS, MAX_DAY * 86_400 + 86_399);
    assert!(DateTime::from_timestamp(MIN_SECONDS - 1, 0).is_none());
    assert!(DateTime::from_timestamp(MAX_SECONDS + 1, 0).is_none());
    assert!(Instant::at(MIN_SECONDS, 0).unwrap().in_range());
    assert!(Instant::at(MAX_SECONDS, 999_999_999).unwrap().in_range());
    assert_eq!(Instant::at(MIN_SECONDS - 1, 0), None);
    assert_eq!(Instant::at(MAX_SECONDS + 1, 0), None);
    assert_eq!(Instant::at(0, 1_000_000_000), None);
}

#[test]
fn a_moment_before_the_epoch_is_counted_down() {
    let t = Instant { nanos: -1 };
    assert_eq!((t.timestamp(), t.subsec_nanos()), (-1, 999_999_999));
    let t = Instant { nanos: -1_000_000_000 };
    assert_eq!((t.timestamp(), t.subsec_nanos()), (-1, 0));
}

#[test]
fn lengths_of_time_are_whole_seconds_and_days_with_the_rest_dropped() {
    assert_eq!(Duration { nanos: -1_999_999_999 }.num_seconds(), -1);
    assert_eq!(Duration { nanos: 1_999_999_999 }.num_seconds(), 1);
    assert_eq!(Duration::seconds(-86_401).num_days(), -1);
    assert_eq!(Duration::seconds(86_399).num_days(), 0);
    assert_eq!(Duration::hours(49).num_days(), 2);
    assert_eq!(Duration::minutes(3), Duration::seconds(180));
    assert_eq!(Duration::days(2), Duration::hours(48));
}

#[test]
fn midnight_is_that_of_the_calendar_on_every_clock() {
    let seconds = [
        MIN_SECONDS,
        MIN_SECONDS + 1,
        MIN_SECONDS + 86_399,
        MIN_SECONDS + 86_400,
        YEAR_ZERO,
        -1,
        0,
        951_782_400,
        1_786_991_247,
        YEAR_9999_END,
        MAX_SECONDS - 86_400,
        MAX_SECONDS - 1,
        MAX_SECONDS,
    ];
    for secs in seconds {
        for east in [0, 1, -1, 3600, -14_400, 19_800, 86_399, -86_399] {
            let zone = FixedOffset::east_opt(east).unwrap();
            let local = DateTime::from_timestamp(secs, 0).unwrap().with_timezone(&zone);
            let expected = zone
                .with_ymd_and_hms(local.year(), local.month(), local.day(), 0, 0, 0)
                .single()
                .map(|t| t.timestamp());
            let found = Instant::at(secs, 500).unwrap().midnight(Zone { east });
            assert_eq!(found.map(|t| t.timestamp()), expected, "{secs} {east}");
            let day = (secs + east as i64).div_euclid(86_400);
            let began = day * 86_400 - east as i64;
            let there = began >= MIN_SECONDS && day <= MAX_DAY;
            assert_eq!(expected, if there { Some(began) } else { None }, "{secs} {east}");
        }
    }
}

#[test]
fn a_moment_is_stamped_without_a_fraction_and_with_z() {
    let t = Instant::at(1_738_154_080, 999_000_000).unwrap();
    assert_eq!(t.rfc3339(), "2025-01-29T12:34:40Z");
    assert_eq!(Instant::at(YEAR_ZERO, 0).unwrap().rfc3339(), "0000-01-01T00:00:00Z");
    assert_eq!(Instant::at(YEAR_9999_END, 0).unwrap().rfc3339(), "9999-12-31T23:59:59Z");
    assert_eq!(Instant::at(YEAR_9999_END + 1, 0).unwrap().rfc3339(), "+10000-01-01T00:00:00Z");
}

#[test]
fn stamps_of_four_digit_years_have_one_shape() {
    let mut secs = YEAR_ZERO;
    while secs <= YEAR_9999_END {
        let s = Instant::at(secs, 0).unwrap().rfc3339();
        let shape: String =
            s.chars().map(|c| if c.is_ascii_digit() { 'd' } else { c }).collect();
        assert_eq!(shape, "dddd-dd-ddTdd:dd:ddZ", "{s}");
        secs += 987_654_321;
    }
}

#[test]
fn a_local_text_ends_with_its_offset() {
    let t = Instant::at(1_786_991_247, 0).unwrap();
    for (east, end) in [
        (0, "+00:00"),
        (-14_400, "-04:00"),
        (19_800, "+05:30"),
        (29, "+00:00"),
        (30, "+00:01"),
        (-30, "-00:01"),
        (-29, "-00:00"),
        (86_399, "+24:00"),
        (-86_399, "-24:00"),
    ] {
        let s = t.local_text(Zone { east });
        assert!(s.ends_with(end), "{s} {east}");
        let zone = FixedOffset::east_opt(east).unwrap();
        assert_eq!(s, outside(t).with_timezone(&zone).to_rfc3339());
    }
    let t = Instant::at(1_786_991_247, 5_000_000).unwrap();
    assert_eq!(t.local_text(Zone { east: 0 }), "2026-08-17T18:27:27.005+00:00");
}

#[test]
fn the_first_and_the_last_moment_can_be_told() {
    for secs in [MIN_SECONDS, MAX_SECONDS] {
        let t = Instant::at(secs, 999_999_999).unwrap();
        let stamp = outside(t).format("%Y-%m-%dT%H:%M:%SZ").to_string();
        assert_eq!(t.rfc3339(), stamp);
        for east in [0, 86_399, -86_399] {
            let zone = FixedOffset::east_opt(east).unwrap();
            let local = outside(t).with_timezone(&zone).to_rfc3339();
            assert_eq!(t.local_text(Zone { east }), local);
        }
    }
}
