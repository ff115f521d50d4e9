use dynamo::emporia::{
    channels_of, chart_url, chart_url_between, devices_url, encode, fits, readings, Account, ApiChannel, ChannelKind,
    ChartUsage, Device, Location, NamedChannel, Reading,
};
use dynamo::plan::{Fetch, Series};
use dynamo::scale::Scale;
use dynamo::time::{Instant, Zone};
use serde_json::Value;

fn moment(s: &str) -> Instant {
    let t = chrono::DateTime::parse_from_rfc3339(s).unwrap();
    Instant::at(t.timestamp(), t.timestamp_subsec_nanos()).unwrap()
}

fn utc(t: Instant) -> String {
    t.local_text(Zone { east: 0 })
}

fn word(v: &Value) -> Option<String> {
    v.as_str().map(str::to_string)
}

fn list(v: &Value) -> Vec<Value> {
    v.as_array().cloned().unwrap_or_default()
}

fn device(v: &Value) -> Device {
    Device {
        device_gid: v["deviceGid"].as_i64().unwrap(),
        model: word(&v["model"]),
        firmware: word(&v["firmware"]),
        location: v
            .get("locationProperties")
            .map(|l| Location { device_name: word(&l["deviceName"]) }),
        channels: list(&v["channels"])
            .iter()
            .map(|c| ApiChannel {
                channel_num: word(&c["channelNum"]).unwrap(),
                name: word(&c["name"]),
                multiplier: c["channelMultiplier"].as_f64().map(f64::to_bits),
                kind: word(&c["type"]),
                merged_into: word(&c["mergedChannelId"]),
            })
            .collect(),
        devices: list(&v["devices"]).iter().map(device).collect(),
    }
}

fn account(body: &str) -> Account {
    let v: Value = serde_json::from_str(body).unwrap();
    Account {
        customer_gid: v["customerGid"].as_i64().unwrap(),
        created_at: moment(v["createdAt"].as_str().unwrap()),
        devices: list(&v["devices"]).iter().map(device).collect(),
    }
}

fn chart(body: &str) -> ChartUsage {
    let v: Value = serde_json::from_str(body).unwrap();
    ChartUsage {
        first_usage_instant: v["firstUsageInstant"].as_str().map(moment),
        usage_list: list(&v["usageList"]).iter().map(|p| p.as_f64().map(f64::to_bits)).collect(),
    }
}

#[test]
fn channel_kinds_follow_the_numbering_observed_on_these_devices() {
    assert_eq!(ChannelKind::of("1,2,3"), ChannelKind::Main);
    assert_eq!(ChannelKind::of("1"), ChannelKind::Branch);
    assert_eq!(ChannelKind::of("16"), ChannelKind::Branch);
    assert_eq!(ChannelKind::of("97"), ChannelKind::Merged);
    assert_eq!(ChannelKind::of("104"), ChannelKind::Merged);
}

#[test]
fn a_chart_url_encodes_the_comma_in_a_mains_channel_and_the_colons_in_an_instant() {
    let f = Fetch {
        series: Series {
            device_gid: 415375,
            channel_num: "1,2,3".into(),
            scale: Scale::Hour,
        },
        start: moment("2025-01-29T12:34:40Z"),
        end: moment("2025-03-03T20:34:40Z"),
    };
    let u = chart_url(&f);
    assert!(u.contains("channel=1%2C2%2C3"), "{u}");
    assert!(u.contains("start=2025-01-29T12%3A34%3A40Z"), "{u}");
    assert!(u.contains("scale=1H"), "{u}");
    assert!(!u.contains("+00:00"), "an offset the API rejects: {u}");
}

// The nesting is the point: the branch channels are on a device inside the
// monitor, sharing its gid.
const DEVICES: &str = r#"{
  "customerGid": 279350,
  "createdAt": "2025-01-29T12:34:40Z",
  "devices": [{
    "deviceGid": 415375,
    "model": "VUE003",
    "firmware": "Vue3-812",
    "locationProperties": {"deviceName": "basement (black)"},
    "channels": [{"channelNum": "1,2,3", "name": null, "type": "Main", "channelMultiplier": 1}],
    "devices": [{
      "deviceGid": 415375,
      "model": "WAT001",
      "channels": [
        {"channelNum": "11", "name": "Dryer", "type": "FiftyAmp", "channelMultiplier": 1},
        {"channelNum": "12", "name": "Dryer", "type": "FiftyAmp", "channelMultiplier": 1},
        {"channelNum": "101", "name": "Clothes Dryer", "type": "Merged", "channelMultiplier": 1}
      ]
    }]
  }]
}"#;

#[test]
fn the_device_tree_flattens_to_every_channel_with_its_kind() {
    let a = account(DEVICES);
    let cs = channels_of(&a);
    assert_eq!(cs.len(), 4);
    let dryer = cs.iter().find(|c| c.channel_num == "101").unwrap();
    assert_eq!(dryer.kind, ChannelKind::Merged);
    assert_eq!(dryer.name.as_deref(), Some("Clothes Dryer"));
    // The nested device has no name of its own; the channel belongs to the box
    // a person named.
    assert_eq!(dryer.device_name.as_deref(), Some("basement (black)"));
}

#[test]
fn the_account_start_is_read_because_it_bounds_every_backfill() {
    let a = account(DEVICES);
    assert_eq!(utc(a.created_at), "2025-01-29T12:34:40+00:00");
}

#[test]
fn nulls_are_dropped_rather_than_stored_as_zero() {
    let u = chart(r#"{"firstUsageInstant":"2026-08-17T12:00:00Z","usageList":[1.5,null,2.5]}"#);
    let r = readings(&u, Scale::Hour);
    assert_eq!(r.len(), 2);
    assert_eq!(utc(r[0].instant), "2026-08-17T12:00:00+00:00");
    // The third point keeps its own hour: the gap is not closed up.
    assert_eq!(utc(r[1].instant), "2026-08-17T14:00:00+00:00");
}

#[test]
fn a_response_with_no_first_instant_yields_nothing_rather_than_guessing_one() {
    let u = chart(r#"{"usageList":[1.0,2.0]}"#);
    assert!(readings(&u, Scale::Hour).is_empty());
}

#[test]
fn a_window_of_pure_nulls_is_an_empty_answer_not_an_error() {
    let u = chart(r#"{"firstUsageInstant":"2025-01-01T00:00:00Z","usageList":[null,null]}"#);
    assert!(readings(&u, Scale::Minute).is_empty());
}

#[test]
fn a_reading_keeps_its_value_to_the_bit() {
    let values = [0.1, -0.0, 1e300];
    let u = ChartUsage {
        first_usage_instant: Some(moment("2026-08-17T12:00:00Z")),
        usage_list: values.iter().map(|v: &f64| Some(v.to_bits())).collect(),
    };
    let r = readings(&u, Scale::QuarterHour);
    let expected: Vec<Reading> = values
        .iter()
        .zip(["12:00", "12:15", "12:30"])
        .map(|(v, t)| Reading {
            instant: moment(&format!("2026-08-17T{t}:00Z")),
            kwh: v.to_bits(),
        })
        .collect();
    assert_eq!(r, expected);
}

#[test]
fn a_response_at_the_end_of_time_does_not_fit() {
    let last = Instant::at(dynamo::time::MAX_SECONDS, 0).unwrap();
    let of = |points: Vec<Option<u64>>| ChartUsage {
        first_usage_instant: Some(last),
        usage_list: points,
    };
    assert!(fits(&of(vec![Some(1)]), Scale::Minute));
    assert!(fits(&of(vec![Some(1), None]), Scale::Minute));
    assert!(!fits(&of(vec![None, Some(1)]), Scale::Minute));
    assert!(fits(&ChartUsage { first_usage_instant: None, usage_list: vec![Some(1)] }, Scale::Day));
}

#[test]
fn a_number_of_another_shape_is_a_main() {
    for (num, kind) in [
        ("", ChannelKind::Main),
        ("Balance", ChannelKind::Main),
        ("1,2,3", ChannelKind::Main),
        ("-5", ChannelKind::Main),
        (" 5", ChannelKind::Main),
        ("+5", ChannelKind::Branch),
        ("0", ChannelKind::Branch),
        ("96", ChannelKind::Branch),
        ("0097", ChannelKind::Merged),
        ("4294967295", ChannelKind::Merged),
        ("4294967296", ChannelKind::Main),
        ("97,1", ChannelKind::Main),
    ] {
        assert_eq!(ChannelKind::of(num), kind, "{num:?}");
    }
    assert_eq!(ChannelKind::Main.as_str(), "main");
    assert_eq!(ChannelKind::Branch.as_str(), "branch");
    assert_eq!(ChannelKind::Merged.as_str(), "merged");
}

#[test]
fn the_urls_in_full() {
    assert_eq!(devices_url(), "https://api.emporiaenergy.com/customers/devices");
    let f = Fetch {
        series: Series {
            device_gid: -7,
            channel_num: "1,2,3".into(),
            scale: Scale::Minute,
        },
        start: moment("2025-01-29T12:34:40.999Z"),
        end: moment("2025-01-30T01:54:40Z"),
    };
    assert_eq!(
        chart_url(&f),
        "https://api.emporiaenergy.com/AppAPI?apiMethod=getChartUsage&deviceGid=-7\
         &channel=1%2C2%2C3&start=2025-01-29T12%3A34%3A40Z&end=2025-01-30T01%3A54%3A40Z\
         &scale=1MIN&energyUnit=KilowattHours"
    );
}

#[test]
fn only_plain_characters_stand_for_themselves() {
    assert_eq!(encode("AZaz09-_.~"), "AZaz09-_.~");
    assert_eq!(encode("a b+c&d=e%f/g?"), "a%20b%2Bc%26d%3De%25f%2Fg%3F");
    assert_eq!(encode("é—\u{1F600}"), "%C3%A9%E2%80%94%F0%9F%98%80");
    assert_eq!(encode("\u{0}\u{7f}"), "%00%7F");
    for n in 0..128u8 {
        let c = n as char;
        let plain = c.is_ascii_alphanumeric() || "-_.~".contains(c);
        let expected = if plain { c.to_string() } else { format!("%{n:02X}") };
        assert_eq!(encode(&c.to_string()), expected);
    }
}

fn leg(num: &str, name: &str) -> ApiChannel {
    ApiChannel {
        channel_num: num.into(),
        name: Some(name.into()),
        multiplier: None,
        kind: None,
        merged_into: Some("Merged_99".into()),
    }
}

fn monitor(gid: i64, name: Option<&str>, channels: Vec<ApiChannel>, devices: Vec<Device>) -> Device {
    Device {
        device_gid: gid,
        model: None,
        firmware: None,
        location: name.map(|n| Location { device_name: Some(n.into()) }),
        channels,
        devices,
    }
}

#[test]
fn a_channel_listed_twice_is_kept_as_it_first_occurs_and_channels_are_in_order() {
    let inner = monitor(2, None, vec![leg("10", "second"), leg("9", "nine")], vec![]);
    let own = monitor(2, Some("inner name"), vec![leg("100", "x")], vec![]);
    let outer = monitor(2, Some("outer name"), vec![leg("10", "first")], vec![inner, own]);
    let other = monitor(1, None, vec![leg("7", "seven")], vec![]);
    let a = Account {
        customer_gid: 0,
        created_at: moment("2025-01-29T12:34:40Z"),
        devices: vec![outer, other],
    };
    let found: Vec<(i64, String, Option<String>, Option<String>)> = channels_of(&a)
        .into_iter()
        .map(|c: NamedChannel| (c.device_gid, c.channel_num, c.name, c.device_name))
        .collect();
    let row = |gid: i64, num: &str, name: &str, device: Option<&str>| {
        (gid, num.to_string(), Some(name.to_string()), device.map(str::to_string))
    };
    assert_eq!(
        found,
        vec![
            row(1, "7", "seven", None),
            row(2, "10", "first", Some("outer name")),
            row(2, "100", "x", Some("inner name")),
            row(2, "9", "nine", Some("outer name")),
        ]
    );
    let c = &channels_of(&a)[1];
    assert_eq!(c.merged_into.as_deref(), Some("Merged_99"));
    assert_eq!(c.as_plan_channel().channel_num, "10");
    assert_eq!(c.as_plan_channel().device_gid, 2);
}

#[test]
fn an_account_without_devices_has_no_channels() {
    let a = Account {
        customer_gid: 0,
        created_at: moment("2025-01-29T12:34:40Z"),
        devices: vec![],
    };
    assert_eq!(channels_of(&a), vec![]);
}

#[test]
fn a_url_between_instants_encodes_them_as_they_are_written() {
    let s = Series { device_gid: 1, channel_num: "97".into(), scale: Scale::Day };
    assert_eq!(
        chart_url_between(&s, "a:b", "+1"),
        "https://api.emporiaenergy.com/AppAPI?apiMethod=getChartUsage&deviceGid=1&channel=97\
         &start=a%3Ab&end=%2B1&scale=1D&energyUnit=KilowattHours"
    );
}
