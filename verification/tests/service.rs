use dynamo::emporia::{chart_url, ChannelKind, NamedChannel};
use dynamo::http::Fault;
use dynamo::json::Json;
use dynamo::plan::{plan, Horizon, Series};
use dynamo::scale::Scale;
use dynamo::service::{
    after_pass, bad_request, command, completed, failed, health, plannable, query_failed,
    signed_in_at, unread_account, After, Command, Outcome, Pass,
};
use dynamo::store::{
    record_failure, record_success, watermarks, Health, MarkRow, Param, Query, Watermarks,
};
use dynamo::time::{Duration, Instant};

fn second(n: i64) -> Instant {
    Instant::at(n, 0).unwrap()
}

fn words(line: &str) -> Vec<String> {
    line.split_whitespace().map(str::to_string).collect()
}

#[test]
fn the_first_argument_is_the_command() {
    assert_eq!(command(&vec![]), Command::Run);
    assert_eq!(command(&words("--health")), Command::Health);
    assert_eq!(command(&words("--once --health")), Command::Once);
    assert_eq!(command(&words("agent usage today")), Command::Agent(words("usage today")));
    assert_eq!(command(&words("agent")), Command::Agent(vec![]));
    assert_eq!(command(&words("--ONCE")), Command::Unknown("--ONCE".into()));
}

const NOW: i64 = 1_786_991_247;

fn well() -> Health {
    Health {
        last_success: Some(second(NOW - 40)),
        last_error: None,
        ok: true,
        authenticated_at: None,
    }
}

fn verdict(h: &Health) -> (bool, String) {
    let v = health(h, 900, second(NOW));
    (v.healthy, v.line)
}

#[test]
fn a_recent_success_is_well_and_an_old_one_is_not() {
    assert_eq!(verdict(&well()), (true, "ok: last success 40s ago".into()));
    let edge = Health { last_success: Some(second(NOW - 900)), ..well() };
    assert_eq!(verdict(&edge), (true, "ok: last success 900s ago".into()));
    let old = Health { last_success: Some(second(NOW - 901)), ..well() };
    assert_eq!(
        verdict(&old),
        (false, "unhealthy: last success was 901s ago, limit is 900s".into())
    );
}

#[test]
fn the_age_of_the_credential_is_told_with_a_success() {
    let h = Health { authenticated_at: Some(second(NOW - 23 * 86_400 - 5)), ..well() };
    assert_eq!(verdict(&h), (true, "ok: last success 40s ago, credential 23 days old".into()));
}

#[test]
fn no_success_yet_is_starting() {
    let h = Health { last_success: None, ..well() };
    assert_eq!(verdict(&h), (true, "starting: no pass has completed yet".into()));
}

#[test]
fn a_refused_sign_in_is_unwell_in_its_own_words() {
    let h = Health { ok: false, last_error: Some("sign-in rejected: gone".into()), ..well() };
    assert_eq!(verdict(&h), (false, "unhealthy: sign-in rejected: gone".into()));
    let h = Health { ok: false, ..well() };
    assert_eq!(verdict(&h), (false, "unhealthy: sign-in failed".into()));
}

/// Applies what is handed over as the heartbeat's row would.
fn beat(h: Health, q: Query, at: Instant) -> Health {
    match q.params.as_slice() {
        [Param::OptionalMoment(signed_in)] => Health {
            last_success: Some(at),
            last_error: None,
            ok: true,
            authenticated_at: signed_in.or(h.authenticated_at),
        },
        [Param::Text(message), Param::Bool(fatal)] => {
            Health { last_error: Some(message.clone()), ok: !*fatal && h.ok, ..h }
        }
        other => panic!("{other:?}"),
    }
}

#[test]
fn a_fatal_failure_lasts_until_a_success() {
    let mut h = Health { authenticated_at: Some(second(NOW - 86_400)), ..well() };
    h = beat(h, record_failure("the network wobbled", false), second(NOW - 30));
    assert!(verdict(&h).0);
    h = beat(h, record_failure("sign-in rejected: gone", true), second(NOW - 20));
    assert_eq!(verdict(&h), (false, "unhealthy: sign-in rejected: gone".into()));
    h = beat(h, record_failure("the network wobbled", false), second(NOW - 10));
    assert_eq!(verdict(&h), (false, "unhealthy: the network wobbled".into()));
    h = beat(h, record_success(None), second(NOW));
    assert_eq!(verdict(&h), (true, "ok: last success 0s ago, credential 1 days old".into()));
    h = beat(h, record_success(Some(second(NOW))), second(NOW));
    assert_eq!(verdict(&h), (true, "ok: last success 0s ago, credential 0 days old".into()));
}

#[test]
fn a_failure_is_told_to_a_model_as_json() {
    let j = bad_request("no");
    assert_eq!(j.get("ok"), Some(&Json::Bool(false)));
    assert_eq!(j.get("error"), Some(&Json::Text("bad-request".into())));
    assert_eq!(j.get("message"), Some(&Json::Text("no".into())));
    assert_eq!(query_failed("x").get("error"), Some(&Json::Text("query-failed".into())));
}

fn channel(gid: i64, num: &str) -> NamedChannel {
    NamedChannel {
        device_gid: gid,
        device_name: None,
        channel_num: num.into(),
        name: None,
        kind: ChannelKind::Branch,
        multiplier: None,
        merged_into: None,
    }
}

fn horizon() -> Horizon {
    Horizon { account_created: second(NOW - 500 * 86_400), now: second(NOW) }
}

fn some_marks() -> Watermarks {
    watermarks(vec![MarkRow {
        device_gid: 1,
        channel_num: "4".into(),
        scale: "1H".into(),
        newest: Some(second(NOW - 7200)),
    }])
}

#[test]
fn a_pass_plans_from_what_is_held() {
    let channels = vec![channel(1, "4"), channel(1, "5")];
    let marks = some_marks();
    let h = horizon();
    assert!(plannable(&channels, &marks, &h));
    let pass = Pass::begin(&channels, &marks, &h);
    let known: Vec<_> = channels.iter().map(|c| c.as_plan_channel()).collect();
    assert_eq!(pass.work, plan(&known, &|s: &Series| marks.get(s), &h));
    let first = pass.work.iter().find(|f| f.series.scale == Scale::Hour).unwrap();
    assert_eq!(first.start, second(NOW - 3 * 3600));
    assert_eq!((pass.next, pass.written), (0, 0));
}

#[test]
fn a_mark_at_the_beginning_of_time_cannot_be_planned_from() {
    let marks = |newest: i64| {
        watermarks(vec![MarkRow {
            device_gid: 1,
            channel_num: "4".into(),
            scale: "1D".into(),
            newest: Some(second(newest)),
        }])
    };
    let first = dynamo::time::MIN_SECONDS;
    let channels = vec![channel(1, "4")];
    assert!(!plannable(&channels, &marks(first), &horizon()));
    assert!(plannable(&channels, &marks(first + 86_400), &horizon()));
    // Nobody asks about a channel that is not there.
    assert!(plannable(&vec![channel(2, "4")], &marks(first), &horizon()));
    let early = Horizon { account_created: second(first), now: second(first + 100) };
    assert!(!plannable(&channels, &watermarks(vec![]), &early));
    assert!(plannable(&vec![], &watermarks(vec![]), &early));
}

#[test]
fn a_long_pass_says_so() {
    let channels: Vec<NamedChannel> = (0..3).map(|i| channel(1, &i.to_string())).collect();
    let pass = Pass::begin(&channels, &watermarks(vec![]), &horizon());
    let n = pass.work.len();
    assert!(n > 200);
    assert_eq!(
        pass.announcement(3),
        Some(format!("backfilling: {n} windows across 3 channels"))
    );
    let short = Pass::begin(&vec![channel(1, "4")], &watermarks(vec![]), &horizon());
    assert!(short.work.len() <= 200);
    assert_eq!(short.announcement(1), None);
}

fn pass_of(n: usize) -> Pass {
    let mut pass = Pass::begin(&vec![channel(7, "1,2,3")], &some_marks(), &horizon());
    pass.work.truncate(n);
    pass
}

#[test]
fn a_pass_goes_through_its_work_whatever_fails() {
    let mut pass = pass_of(5);
    assert_eq!(pass.url(), Some(chart_url(&pass.work[0])));
    assert_eq!(pass.take(Outcome::Saved(10)), Ok(None));
    assert_eq!(
        pass.take(Outcome::Failed(Fault::Refused { status: 400, message: "PT13H20M".into() })),
        Ok(Some("dynamo: refused (400) for 7 1,2,3 1MIN: PT13H20M".into()))
    );
    assert_eq!(
        pass.take(Outcome::Failed(Fault::Transient("HTTP 502: x".into()))),
        Ok(Some("dynamo: HTTP 502: x".into()))
    );
    assert_eq!(
        pass.take(Outcome::Unreadable("eof".into())),
        Ok(Some("dynamo: unreadable usage body: eof".into()))
    );
    assert_eq!(
        pass.take(Outcome::Unsaved("cannot commit: x".into())),
        Ok(Some("dynamo: cannot commit: x".into()))
    );
    assert_eq!((pass.next, pass.written, pass.url()), (5, 10, None));
}

#[test]
fn only_a_refused_sign_in_ends_a_pass() {
    let mut pass = pass_of(3);
    assert_eq!(pass.take(Outcome::Saved(4)), Ok(None));
    assert_eq!(
        pass.take(Outcome::Failed(Fault::Unauthorised("gone".into()))),
        Err(Fault::Unauthorised("gone".into()))
    );
    assert_eq!((pass.next, pass.written), (1, 4));
}

#[test]
fn a_complete_pass_is_told_in_a_line() {
    let held = vec![(Scale::Minute, 8640), (Scale::Hour, 41200)];
    assert_eq!(
        completed(412, &held, Some(second(NOW).minus(Duration::days(23))), second(NOW)),
        "pass complete: 412 readings written; holding 1MIN 8640, 1H 41200; credential 23 days old"
    );
    assert_eq!(
        completed(0, &vec![], None, second(NOW)),
        "pass complete: 0 readings written; holding "
    );
}

#[test]
fn the_sign_in_is_told_where_it_can_be_represented() {
    assert_eq!(signed_in_at(Some(NOW)), Some(second(NOW)));
    assert_eq!(signed_in_at(None), None);
    assert_eq!(signed_in_at(Some(i64::MAX)), None);
    assert_eq!(signed_in_at(Some(dynamo::time::MAX_SECONDS)).is_some(), true);
    assert_eq!(signed_in_at(Some(dynamo::time::MAX_SECONDS + 1)), None);
}

#[test]
fn a_refused_sign_in_is_the_end_and_says_what_to_do() {
    let f = failed(&Fault::Unauthorised("gone".into()));
    assert!(f.fatal);
    assert_eq!(f.message, "sign-in rejected: gone");
    assert_eq!(f.lines.len(), 4);
    assert_eq!(f.lines[0], "dynamo: gone");
    assert!(f.lines[1].contains("DYNAMO_REFRESH_TOKEN is no longer accepted"));
    let f = failed(&Fault::Transient("cognito unreachable: dns".into()));
    assert!(!f.fatal);
    assert_eq!(f.message, "cognito unreachable: dns");
    assert_eq!(f.lines, vec!["dynamo: pass failed: cognito unreachable: dns".to_string()]);
    let f = failed(&Fault::Refused { status: 400, message: "x".into() });
    assert_eq!((f.fatal, f.message.as_str()), (false, "refused (400): x"));
    assert_eq!(
        unread_account("eof"),
        Fault::Transient("unreadable device list: eof".into())
    );
}

#[test]
fn a_pass_is_followed_by_another_unless_it_is_the_end() {
    assert_eq!(after_pass(false, false, 60), After::Wait { seconds: 60 });
    assert_eq!(after_pass(false, true, 60), After::Exit { success: true });
    assert_eq!(after_pass(true, true, 60), After::Exit { success: false });
    assert_eq!(after_pass(true, false, 60), After::Exit { success: false });
}
