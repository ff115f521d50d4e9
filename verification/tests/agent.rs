use dynamo::agent::{
    describe, parse, scale_of, span_of, Kind, Refusal, Request, NO_FLAGS, NO_VERB,
};
use dynamo::json::Json;
use dynamo::scale::Scale;
use dynamo::time::{Duration, Instant, Zone};

fn args(line: &str) -> Vec<String> {
    line.split_whitespace().map(str::to_string).collect()
}

fn at(s: &str) -> Instant {
    let t = chrono::DateTime::parse_from_rfc3339(s).unwrap();
    Instant::at(t.timestamp(), t.timestamp_subsec_nanos()).unwrap()
}

fn clock() -> Instant {
    at("2026-08-17T19:30:00Z")
}

/// The time zone of the house, stated rather than inherited from a machine.
fn edt() -> Zone {
    Zone { east: -4 * 3600 }
}

/// Greenwich, for the cases that are about the words rather than the clock.
fn utc() -> Zone {
    Zone { east: 0 }
}

#[test]
fn the_fixed_prefix_is_tolerated_but_not_required() {
    assert_eq!(parse(&args("channels"), clock(), utc()), Ok(Request::Channels));
    assert_eq!(parse(&args("agent channels"), clock(), utc()), Ok(Request::Channels));
}

#[test]
fn yesterday_is_a_whole_day_and_stops_at_midnight() {
    let Ok(Request::Usage { span, .. }) = parse(&args("usage yesterday"), clock(), utc()) else {
        panic!("usage should parse");
    };
    assert_eq!(span.from.local_text(utc()), "2026-08-16T00:00:00+00:00");
    assert_eq!(span.to.local_text(utc()), "2026-08-17T00:00:00+00:00");
}

#[test]
fn today_runs_to_the_current_moment_rather_than_to_midnight_tonight() {
    let Ok(Request::Usage { span, .. }) = parse(&args("usage today"), clock(), utc()) else {
        panic!("usage should parse");
    };
    assert_eq!(span.from.local_text(utc()), "2026-08-17T00:00:00+00:00");
    assert_eq!(span.to, clock());
}

#[test]
fn usage_counts_each_circuit_once_by_default() {
    let Ok(Request::Usage { kind, .. }) = parse(&args("usage today"), clock(), utc()) else {
        panic!("usage should parse");
    };
    assert_eq!(kind, Kind::Circuits);
}

#[test]
fn a_day_begins_at_local_midnight_and_not_at_utc_midnight() {
    let Ok(Request::Usage { span, .. }) = parse(&args("usage today"), clock(), edt()) else {
        panic!("usage should parse");
    };
    // 19:30Z is 15:30 on the house's clock, so today began at 04:00Z.
    assert_eq!(span.from.local_text(utc()), "2026-08-17T04:00:00+00:00");
}

#[test]
fn yesterday_is_a_local_day_end_to_end() {
    let Ok(Request::Usage { span, .. }) = parse(&args("usage yesterday"), clock(), edt()) else {
        panic!("usage should parse");
    };
    assert_eq!(span.from.local_text(utc()), "2026-08-16T04:00:00+00:00");
    assert_eq!(span.to.local_text(utc()), "2026-08-17T04:00:00+00:00");
    assert_eq!(span.to.since(span.from).num_seconds() / 3600, 24);
}

#[test]
fn a_zone_east_of_greenwich_works_too() {
    let berlin = Zone { east: 2 * 3600 };
    let Ok(Request::Usage { span, .. }) = parse(&args("usage today"), clock(), berlin) else {
        panic!("usage should parse");
    };
    assert_eq!(span.from.local_text(utc()), "2026-08-16T22:00:00+00:00");
}

#[test]
fn a_period_is_optional_and_defaults_to_today() {
    let Ok(Request::Usage { span, .. }) = parse(&args("usage"), clock(), utc()) else {
        panic!("usage should parse");
    };
    assert_eq!(span.named, "today");
}

#[test]
fn series_defaults_to_hourly_so_a_day_fits_in_one_answer() {
    let Ok(Request::Series { scale, query, .. }) =
        parse(&args("series Dryer today"), clock(), utc())
    else {
        panic!("series should parse");
    };
    assert_eq!(scale, Scale::Hour);
    assert_eq!(query, "Dryer");
}

#[test]
fn a_flag_is_refused_with_what_to_write_instead() {
    let Err(Refusal(why)) = parse(&args("usage --period yesterday"), clock(), utc()) else {
        panic!("a flag should be refused");
    };
    assert!(why.contains("key=value"), "{why}");
}

#[test]
fn an_unknown_verb_names_describe_rather_than_guessing() {
    let Err(Refusal(why)) = parse(&args("obliterate"), clock(), utc()) else {
        panic!("should refuse");
    };
    assert!(why.contains("describe"), "{why}");
}

#[test]
fn an_unknown_period_lists_the_ones_that_work() {
    let Err(Refusal(why)) = parse(&args("usage since-tuesday"), clock(), utc()) else {
        panic!("should refuse");
    };
    assert!(why.contains("yesterday"), "{why}");
}

#[test]
fn series_without_a_circuit_says_how_to_find_one() {
    let Err(Refusal(why)) = parse(&args("series"), clock(), utc()) else {
        panic!("should refuse");
    };
    assert!(why.contains("channels"), "{why}");
}

#[test]
fn describe_declares_itself_read_only_and_warns_about_double_counting() {
    let d = describe();
    assert_eq!(d.get("reads_only"), Some(&Json::Bool(true)));
    let Some(Json::List(notes)) = d.get("notes") else {
        panic!("the notes are a list");
    };
    assert!(
        notes.iter().any(|n| matches!(n, Json::Text(s) if s.contains("double-count"))),
        "the merged/branch trap has to be in describe, it is the one way to misread this data badly"
    );
}

#[test]
fn the_description_names_every_verb_and_period() {
    let d = describe();
    let Some(Json::List(verbs)) = d.get("verbs") else {
        panic!("the verbs are a list");
    };
    let names: Vec<&Json> = verbs.iter().map(|v| v.get("verb").unwrap()).collect();
    let expected: Vec<Json> = ["describe", "channels", "now", "usage", "series"]
        .iter()
        .map(|s| Json::Text(s.to_string()))
        .collect();
    assert_eq!(names, expected.iter().collect::<Vec<_>>());
    let Some(Json::List(periods)) = d.get("periods") else {
        panic!("the periods are a list");
    };
    for p in periods {
        let Json::Text(word) = p else {
            panic!("a period is a word");
        };
        assert!(parse(&args(&format!("usage {word}")), clock(), utc()).is_ok());
    }
    assert_eq!(d.get("no-such-field"), None);
}

#[test]
fn a_flag_anywhere_refuses_everything() {
    for line in ["--help", "agent --x", "obliterate --y", "usage nonsense kind=none --z"] {
        assert_eq!(
            parse(&args(line), clock(), utc()),
            Err(Refusal(NO_FLAGS.to_string())),
            "{line}"
        );
    }
}

#[test]
fn no_words_at_all_need_a_verb() {
    let blank = vec!["".to_string(), "  ".to_string(), "\u{2003}\t".to_string()];
    assert_eq!(parse(&[], clock(), utc()), Err(Refusal(NO_VERB.to_string())));
    assert_eq!(parse(&blank, clock(), utc()), Err(Refusal(NO_VERB.to_string())));
    assert_eq!(parse(&args("agent"), clock(), utc()), Err(Refusal(NO_VERB.to_string())));
}

#[test]
fn blank_words_are_passed_over() {
    let words = vec![" ".to_string(), "now".to_string(), "".to_string()];
    assert_eq!(parse(&words, clock(), utc()), Ok(Request::Now));
}

#[test]
fn only_one_prefix_is_dropped() {
    let Err(Refusal(why)) = parse(&args("agent agent now"), clock(), utc()) else {
        panic!("should refuse");
    };
    assert_eq!(why, "`agent` is not a dynamo verb. `describe` lists them.");
}

#[test]
fn verbs_have_other_names() {
    for (word, request) in [
        ("describe", Request::Describe),
        ("help", Request::Describe),
        ("channels", Request::Channels),
        ("circuits", Request::Channels),
        ("now", Request::Now),
        ("current", Request::Now),
        ("live", Request::Now),
    ] {
        assert_eq!(parse(&args(word), clock(), utc()), Ok(request), "{word}");
    }
    assert_eq!(
        parse(&args("energy week"), clock(), utc()),
        parse(&args("usage week"), clock(), utc())
    );
    assert_eq!(
        parse(&args("history Dryer year"), clock(), utc()),
        parse(&args("series Dryer year"), clock(), utc())
    );
}

#[test]
fn kinds_are_named_in_several_ways() {
    for (word, kind) in [
        ("main", Kind::Main),
        ("mains", Kind::Main),
        ("total", Kind::Main),
        ("branch", Kind::Branch),
        ("branches", Kind::Branch),
        ("legs", Kind::Branch),
        ("merged", Kind::Merged),
        ("circuits", Kind::Circuits),
        ("circuit", Kind::Circuits),
        ("all", Kind::Circuits),
    ] {
        let line = format!("usage today kind={word}");
        let Ok(Request::Usage { kind: found, .. }) = parse(&args(&line), clock(), utc()) else {
            panic!("{line} should parse");
        };
        assert_eq!(found, kind, "{word}");
        assert_eq!(Kind::parse(word), Some(kind));
    }
    assert_eq!(
        parse(&args("usage kind=Main"), clock(), utc()),
        Err(Refusal(
            "`kind=Main` is not one of `circuits`, `merged`, `branch` or `main`.".to_string()
        ))
    );
}

#[test]
fn scales_are_named_in_either_case() {
    for (word, scale) in [
        ("1MIN", Scale::Minute),
        ("15min", Scale::QuarterHour),
        ("1h", Scale::Hour),
        ("1D", Scale::Day),
    ] {
        let line = format!("series scale={word} Dryer");
        let Ok(Request::Series { scale: found, query, span }) =
            parse(&args(&line), clock(), utc())
        else {
            panic!("{line} should parse");
        };
        assert_eq!((found, query.as_str(), span.named), (scale, "Dryer", "today"));
        assert_eq!(scale_of(word), Ok(scale));
    }
    assert_eq!(
        parse(&args("series Dryer scale=1S"), clock(), utc()),
        Err(Refusal("`scale=1S` is not one of `1MIN`, `15MIN`, `1H` or `1D`.".to_string()))
    );
}

#[test]
fn the_first_of_two_options_counts() {
    let Ok(Request::Usage { kind, .. }) =
        parse(&args("usage kind=main kind=branch"), clock(), utc())
    else {
        panic!("usage should parse");
    };
    assert_eq!(kind, Kind::Main);
}

#[test]
fn a_period_is_refused_before_a_kind() {
    assert_eq!(
        parse(&args("usage nonsense kind=none"), clock(), utc()),
        Err(Refusal(
            "`nonsense` is not a period. Use `today`, `yesterday`, `week`, `month`, `year` or `all`."
                .to_string()
        ))
    );
}

#[test]
fn each_period_begins_where_it_says() {
    let midnight = at("2026-08-17T04:00:00Z");
    for (word, from) in [
        ("today", midnight),
        ("week", midnight.minus(Duration::days(6))),
        ("7d", midnight.minus(Duration::days(6))),
        ("month", midnight.minus(Duration::days(29))),
        ("30d", midnight.minus(Duration::days(29))),
        ("year", midnight.minus(Duration::days(364))),
        ("365d", midnight.minus(Duration::days(364))),
        ("all", at("2000-01-01T00:00:00Z")),
        ("ever", at("2000-01-01T00:00:00Z")),
    ] {
        let line = format!("usage {word}");
        let Ok(Request::Usage { span, .. }) = parse(&args(&line), clock(), edt()) else {
            panic!("{line} should parse");
        };
        // A period is named by the word that was typed.
        assert_eq!((span.from, span.to, span.named), (from, clock(), word));
        assert_eq!(span_of(word, clock(), edt()), Ok(span));
    }
    assert_eq!(span_of("yesterday", clock(), edt()).unwrap().named, "yesterday");
    assert!(span_of("Week", clock(), edt()).is_err());
}

#[test]
fn a_moment_without_a_midnight_counts_from_itself() {
    // The first second that there is, on a clock west of Greenwich: its local
    // day began before it.
    let first = Instant::at(dynamo::time::MIN_SECONDS, 0).unwrap();
    let Ok(Request::Usage { span, .. }) = parse(&args("usage today"), first, edt()) else {
        panic!("usage should parse");
    };
    assert_eq!((span.from, span.to), (first, first));
}
