use dynamo::config::{rate_text, Config, Db};

fn env(pairs: &[(&str, &str)]) -> Vec<(String, String)> {
    pairs.iter().map(|(k, v)| (k.to_string(), v.to_string())).collect()
}

fn least() -> Vec<(&'static str, &'static str)> {
    vec![("DYNAMO_REFRESH_TOKEN", "tok"), ("DYNAMO_DB_PASSWORD", "pw")]
}

fn with(more: &[(&'static str, &'static str)]) -> Vec<(String, String)> {
    let mut all = more.to_vec();
    all.extend(least());
    env(&all)
}

/// Reads the environment as the program does.
fn read(env: &Vec<(String, String)>) -> Result<Config, String> {
    let rate = rate_text(env).and_then(|s| s.parse::<f64>().ok()).map(f64::to_bits);
    Config::from_env(env, rate)
}

#[test]
fn the_least_that_is_told_is_two_credentials() {
    assert_eq!(
        read(&with(&[])),
        Ok(Config {
            refresh_token: "tok".into(),
            db: Db {
                host: "postgres".into(),
                port: 5432,
                name: "dynamo".into(),
                user: "dynamo".into(),
                password: "pw".into(),
            },
            interval_secs: 60,
            rate: 4.0f64.to_bits(),
            stale_secs: 900,
        })
    );
}

#[test]
fn everything_can_be_told() {
    let c = read(&with(&[
        ("DYNAMO_DB_HOST", "db.local"),
        ("DYNAMO_DB_PORT", " 5433 "),
        ("DYNAMO_DB_NAME", "power"),
        ("DYNAMO_DB_USER", "reader"),
        ("DYNAMO_INTERVAL", "300"),
        ("DYNAMO_RATE", "\t0.5\n"),
        ("DYNAMO_STALE", "-1"),
        ("HOME", "/root"),
    ]))
    .unwrap();
    assert_eq!(c.db.host, "db.local");
    assert_eq!(c.db.port, 5433);
    assert_eq!(c.db.name, "power");
    assert_eq!(c.db.user, "reader");
    assert_eq!(c.interval_secs, 300);
    assert_eq!(c.rate, 0.5f64.to_bits());
    assert_eq!(c.stale_secs, -1);
}

#[test]
fn a_missing_credential_is_refused_by_its_name() {
    assert_eq!(read(&env(&[])), Err("DYNAMO_REFRESH_TOKEN is not set".into()));
    assert_eq!(
        read(&env(&[("DYNAMO_REFRESH_TOKEN", "  "), ("DYNAMO_DB_PASSWORD", "pw")])),
        Err("DYNAMO_REFRESH_TOKEN is not set".into())
    );
    assert_eq!(
        read(&env(&[("DYNAMO_REFRESH_TOKEN", "tok")])),
        Err("DYNAMO_DB_PASSWORD is not set".into())
    );
}

#[test]
fn a_credential_is_kept_with_the_space_around_it() {
    let c = read(&env(&[("DYNAMO_REFRESH_TOKEN", " t "), ("DYNAMO_DB_PASSWORD", " p ")])).unwrap();
    assert_eq!((c.refresh_token.as_str(), c.db.password.as_str()), (" t ", " p "));
}

#[test]
fn what_is_not_a_number_is_refused_as_it_was_told() {
    for (key, value) in [
        ("DYNAMO_DB_PORT", "65536"),
        ("DYNAMO_DB_PORT", "-1"),
        ("DYNAMO_DB_PORT", " x "),
        ("DYNAMO_INTERVAL", "1.5"),
        ("DYNAMO_INTERVAL", "18446744073709551616"),
        ("DYNAMO_RATE", "fast"),
        ("DYNAMO_STALE", "9223372036854775808"),
        ("DYNAMO_STALE", "+"),
    ] {
        assert_eq!(read(&with(&[(key, value)])), Err(format!("{key} is not a number: {value}")));
    }
}

#[test]
fn the_extremes_are_numbers() {
    let c = read(&with(&[
        ("DYNAMO_DB_PORT", "65535"),
        ("DYNAMO_INTERVAL", "18446744073709551615"),
        ("DYNAMO_STALE", "-9223372036854775808"),
    ]))
    .unwrap();
    assert_eq!(c.db.port, u16::MAX);
    assert_eq!(c.interval_secs, u64::MAX);
    assert_eq!(c.stale_secs, i64::MIN);
    assert_eq!(read(&with(&[("DYNAMO_STALE", "+7")])).unwrap().stale_secs, 7);
}

#[test]
fn a_blank_value_is_no_value() {
    let c = read(&with(&[("DYNAMO_RATE", " "), ("DYNAMO_DB_HOST", ""), ("DYNAMO_DB_PORT", "\t")]))
        .unwrap();
    assert_eq!(c.rate, 4.0f64.to_bits());
    assert_eq!(c.db.host, "postgres");
    assert_eq!(c.db.port, 5432);
}

#[test]
fn the_first_refusal_is_the_one_told() {
    let all_wrong = env(&[
        ("DYNAMO_REFRESH_TOKEN", "tok"),
        ("DYNAMO_DB_PORT", "p"),
        ("DYNAMO_INTERVAL", "i"),
        ("DYNAMO_RATE", "r"),
        ("DYNAMO_STALE", "s"),
    ]);
    assert_eq!(read(&all_wrong), Err("DYNAMO_DB_PORT is not a number: p".into()));
    let later = with(&[("DYNAMO_RATE", "r"), ("DYNAMO_STALE", "s")]);
    assert_eq!(read(&later), Err("DYNAMO_RATE is not a number: r".into()));
}

#[test]
fn the_question_after_health_needs_no_refresh_token() {
    let told = env(&[("DYNAMO_DB_PASSWORD", "pw"), ("DYNAMO_STALE", "30")]);
    let (db, stale) = Config::health_from_env(&told).unwrap();
    assert_eq!((db.password.as_str(), db.port, stale), ("pw", 5432, 30));
    let whole = with(&[("DYNAMO_STALE", "30")]);
    let c = read(&whole).unwrap();
    assert_eq!(Config::health_from_env(&whole), Ok((c.db, c.stale_secs)));
    assert_eq!(
        Config::health_from_env(&env(&[])),
        Err("DYNAMO_DB_PASSWORD is not set".into())
    );
}
