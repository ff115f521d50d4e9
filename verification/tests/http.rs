use dynamo::cognito::{refresh_body, Refreshed};
use dynamo::http::{no_reply, received, Call, Client, Fault, Pace, Received, Token, SECOND};

const MINUTE: u128 = 60 * SECOND;

fn renewed(token: &str, expires_in: i64) -> Result<Refreshed, String> {
    Ok(Refreshed::Renewed { id_token: token.into(), expires_in })
}

fn get(url: &str, token: &str) -> Call {
    Call::Get { url: url.into(), authtoken: token.into() }
}

/// An id token whose payload is `{"auth_time":1786991247}`.
const CLAIMING: &str = "e30.eyJhdXRoX3RpbWUiOjE3ODY5OTEyNDd9.x";

#[test]
fn a_session_signs_in_first_and_then_holds_its_token() {
    let mut c = Client::new("seed".into());
    assert_eq!(c.get("u", 0), Call::SignIn { body: refresh_body("seed") });
    assert_eq!(c.signed_in(200, renewed("t1", 3600), "u", 10), Ok(get("u", "t1")));
    assert_eq!(c.get("v", 10), get("v", "t1"));
    // An hour later less a minute it is renewed, and not a nanosecond before.
    let tired = 10 + 59 * MINUTE;
    assert_eq!(c.get("v", tired - 1), get("v", "t1"));
    assert_eq!(c.get("v", tired), Call::SignIn { body: refresh_body("seed") });
}

#[test]
fn a_token_that_lasts_a_minute_is_used_once() {
    let mut c = Client::new("seed".into());
    for lifetime in [60, 0, -5, i64::MIN] {
        assert_eq!(c.signed_in(200, renewed("short", lifetime), "u", 0), Ok(get("u", "short")));
        assert_eq!(c.get("u", 0), Call::SignIn { body: refresh_body("seed") });
    }
    assert_eq!(c.signed_in(200, renewed("long", i64::MAX), "u", 0), Ok(get("u", "long")));
    assert_eq!(c.get("u", u64::MAX as u128), get("u", "long"));
}

#[test]
fn a_clock_that_stands_still_or_steps_back_makes_no_token_tired() {
    let t = Token { id_token: "t".into(), got_at: 100 * MINUTE, lifetime: 2 * MINUTE };
    assert!(!t.tired(0));
    assert!(!t.tired(100 * MINUTE));
    assert!(t.tired(101 * MINUTE));
    assert!(t.tired(u128::MAX));
}

#[test]
fn the_age_of_the_credential_is_read_and_not_forgotten() {
    let mut c = Client::new("seed".into());
    assert_eq!(c.authenticated_at(), None);
    c.signed_in(200, renewed("no.claims.here", 3600), "u", 0).unwrap();
    assert_eq!(c.authenticated_at(), None);
    c.signed_in(200, renewed(CLAIMING, 3600), "u", 0).unwrap();
    assert_eq!(c.authenticated_at(), Some(1786991247));
    c.signed_in(200, renewed("no.claims.here", 3600), "u", 0).unwrap();
    assert_eq!(c.authenticated_at(), Some(1786991247));
    c.keep("t", 3600, Some(5), 0);
    assert_eq!(c.authenticated_at(), Some(5));
    c.keep("t", 3600, None, 0);
    assert_eq!(c.authenticated_at(), Some(5));
}

#[test]
fn a_refused_sign_in_is_terminal_and_changes_nothing() {
    let mut c = Client::new("seed".into());
    c.keep("t", 3600, Some(5), 0);
    let refusal = Ok(Refreshed::Rejected { kind: "NotAuthorized".into(), message: "gone".into() });
    assert_eq!(
        c.signed_in(400, refusal, "u", 9),
        Err(Fault::Unauthorised("NotAuthorized: gone".into()))
    );
    assert_eq!(
        c.signed_in(200, Err("unreadable".into()), "u", 9),
        Err(Fault::Transient("unreadable".into()))
    );
    assert_eq!(c.get("u", 9), get("u", "t"));
    assert_eq!(c.authenticated_at(), Some(5));
    assert_eq!(no_reply("dns"), Fault::Transient("cognito unreachable: dns".into()));
}

#[test]
fn replies_are_told_apart() {
    let status = |status: u16, body: Option<&str>| {
        received(Received::Status { status, body: body.map(str::to_string) })
    };
    assert_eq!(received(Received::Page("{}".into())), Ok("{}".into()));
    assert_eq!(
        received(Received::Unreadable("eof".into())),
        Err(Fault::Transient("unreadable body: eof".into()))
    );
    assert_eq!(
        received(Received::Nothing("reset".into())),
        Err(Fault::Transient("reset".into()))
    );
    assert_eq!(status(401, Some("no")), Err(Fault::Unauthorised("no".into())));
    assert_eq!(status(403, None), Err(Fault::Unauthorised("401/403".into())));
    assert_eq!(
        status(400, Some("PT800H")),
        Err(Fault::Refused { status: 400, message: "PT800H".into() })
    );
    assert_eq!(status(400, None), Err(Fault::Refused { status: 400, message: "".into() }));
    assert_eq!(status(502, Some("bad")), Err(Fault::Transient("HTTP 502: bad".into())));
    assert_eq!(status(404, None), Err(Fault::Transient("HTTP 404: ".into())));
}

#[test]
fn a_failure_is_told_in_words() {
    assert_eq!(Fault::Unauthorised("x".into()).text(), "sign-in rejected: x");
    assert_eq!(
        Fault::Refused { status: 400, message: "y".into() }.text(),
        "refused (400): y"
    );
    assert_eq!(Fault::Transient("z".into()).text(), "z");
}

#[test]
fn requests_keep_their_distance() {
    let mut p = Pace::every(250);
    assert_eq!(p.wait(7), 0);
    p.went(1_000);
    assert_eq!(p.wait(1_000), 250);
    assert_eq!(p.wait(1_100), 150);
    assert_eq!(p.wait(1_250), 0);
    assert_eq!(p.wait(9_000), 0);
    assert_eq!(p.wait(500), 250);
    let mut still = Pace::every(0);
    still.went(5);
    assert_eq!(still.wait(5), 0);
}

#[test]
fn a_sign_in_that_meets_a_failed_server_is_worth_another_attempt() {
    let bad_gateway = || dynamo::cognito::parse_refresh(
        502,
        "Bad Gateway",
        |_: &str| Err("not asked".to_string()),
        |_: &str| None,
    );
    let mut c = Client::new("seed".into());
    assert_eq!(
        c.signed_in(502, bad_gateway(), "u", 9),
        Err(Fault::Transient("HTTP 502: Bad Gateway".into()))
    );
    assert_eq!((c.token.is_none(), c.authenticated_at()), (true, None));
    c.keep("t", 3600, Some(5), 0);
    for status in [500, 502, 503, 599, u16::MAX] {
        let r = c.signed_in(status, bad_gateway(), "u", 9);
        assert!(matches!(r, Err(Fault::Transient(_))), "{status}");
        assert!(!dynamo::service::failed(&r.unwrap_err()).fatal);
    }
    for status in [0, 302, 400, 401, 403, 429, 499] {
        let r = c.signed_in(status, bad_gateway(), "u", 9);
        assert!(matches!(r, Err(Fault::Unauthorised(_))), "{status}");
    }
    assert_eq!(c.get("u", 9), get("u", "t"));
    assert_eq!(c.authenticated_at(), Some(5));
}
