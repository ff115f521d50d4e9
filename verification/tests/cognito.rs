use dynamo::cognito::{
    accepted, auth_time, base64url, parse_refresh, refresh_body, rejected, AuthResult,
    RefreshResponse, Refreshed, RefusedResponse, CLIENT_ID,
};

/// Reads the body of a sign-in that was granted.
fn as_result(body: &str) -> Result<RefreshResponse, String> {
    let v: serde_json::Value = serde_json::from_str(body).map_err(|e| e.to_string())?;
    let result = v.get("AuthenticationResult").map(|a| AuthResult {
        id_token: a["IdToken"].as_str().unwrap().to_string(),
        expires_in: a["ExpiresIn"].as_i64().unwrap(),
    });
    Ok(RefreshResponse { result })
}

/// Reads the body of a sign-in that was refused.
fn as_refusal(body: &str) -> Option<RefusedResponse> {
    let v: serde_json::Value = serde_json::from_str(body).ok()?;
    let part = |key: &str| v.get(key).and_then(|s| s.as_str()).map(str::to_string);
    Some(RefusedResponse { kind: part("__type"), message: part("message") })
}

fn refreshed(status: u16, body: &str) -> Result<Refreshed, String> {
    parse_refresh(status, body, as_result, as_refusal)
}

#[test]
fn the_body_names_the_flow_and_carries_no_secret_of_ours() {
    let b = refresh_body("tok");
    assert!(b.contains("REFRESH_TOKEN_AUTH"));
    assert!(b.contains(CLIENT_ID));
    assert!(!b.contains("SECRET_HASH"));
}

#[test]
fn a_good_refresh_yields_the_id_token_and_its_hour() {
    let r = refreshed(
        200,
        r#"{"AuthenticationResult":{"IdToken":"eyJabc","AccessToken":"eyJdef","ExpiresIn":3600,"TokenType":"Bearer"}}"#,
    )
    .unwrap();
    match r {
        Refreshed::Renewed { id_token, expires_in } => {
            assert_eq!(id_token, "eyJabc");
            assert_eq!(expires_in, 3600);
        }
        other => panic!("{other:?}"),
    }
}

#[test]
fn an_expired_refresh_token_is_reported_rather_than_looked_like_a_network_blip() {
    let r = refreshed(
        400,
        r#"{"__type":"NotAuthorizedException","message":"Refresh Token has expired"}"#,
    )
    .unwrap();
    match r {
        Refreshed::Rejected { kind, message } => {
            assert_eq!(kind, "NotAuthorizedException");
            assert!(message.contains("expired"));
        }
        other => panic!("{other:?}"),
    }
}

#[test]
fn a_200_with_a_challenge_is_terminal_too() {
    let r = refreshed(200, r#"{"ChallengeName":"SMS_MFA"}"#).unwrap();
    assert!(matches!(r, Refreshed::Rejected { .. }));
}

fn enc(b: &[u8]) -> String {
    const T: &[u8; 64] = b"ABCDEFGHIJKLMNOPQRSTUVWXYZabcdefghijklmnopqrstuvwxyz0123456789-_";
    let mut out = String::new();
    for chunk in b.chunks(3) {
        let mut n = (chunk[0] as u32) << 16;
        if chunk.len() > 1 {
            n |= (chunk[1] as u32) << 8;
        }
        if chunk.len() > 2 {
            n |= chunk[2] as u32;
        }
        let take = chunk.len() + 1;
        for i in 0..take {
            out.push(T[((n >> (18 - 6 * i)) & 63) as usize] as char);
        }
    }
    out
}

/// Header and payload of a real id token's shape, with nothing for a signature:
/// it is never checked.
fn id_token_with(payload: &str) -> String {
    format!(
        "{}.{}.signature-not-checked",
        enc(br#"{"alg":"RS256"}"#),
        enc(payload.as_bytes())
    )
}

#[test]
fn the_credentials_age_is_readable_from_the_id_token_even_though_the_refresh_token_is_opaque() {
    let t = id_token_with(r#"{"token_use":"id","auth_time":1786991247,"exp":1786994847}"#);
    assert_eq!(auth_time(&t), Some(1786991247));
}

#[test]
fn a_token_without_the_claim_is_absent_rather_than_zero() {
    let t = id_token_with(r#"{"token_use":"id","exp":1786994847}"#);
    assert_eq!(auth_time(&t), None);
}

#[test]
fn nothing_shaped_like_a_token_panics() {
    assert_eq!(auth_time(""), None);
    assert_eq!(auth_time("not.a.token"), None);
    assert_eq!(auth_time("one-segment"), None);
    assert_eq!(auth_time("aaa.bbb.ccc.ddd.eee"), None);
}

#[test]
fn a_claim_that_is_no_integer_is_absent() {
    for payload in [
        r#"{"auth_time":"1786991247"}"#,
        r#"{"auth_time":1.5}"#,
        r#"{"auth_time":null}"#,
        r#"[1786991247]"#,
        r#"{"auth_time":18446744073709551615}"#,
    ] {
        assert_eq!(auth_time(&id_token_with(payload)), None, "{payload}");
    }
    assert_eq!(auth_time(&id_token_with(r#"{"auth_time":-5}"#)), Some(-5));
}

#[test]
fn the_body_is_what_a_json_library_writes() {
    let mut controls = String::new();
    for n in 0..0xa0u32 {
        controls.push(char::from_u32(n).unwrap());
    }
    for token in ["tok", "", "a\"b\\c/d", "\u{1}\u{1f}\u{7f}é—\u{1F600}", controls.as_str()] {
        let mut parameters = serde_json::Map::new();
        parameters.insert("REFRESH_TOKEN".into(), serde_json::Value::from(token));
        let mut body = serde_json::Map::new();
        body.insert("AuthFlow".into(), serde_json::Value::from("REFRESH_TOKEN_AUTH"));
        body.insert("ClientId".into(), serde_json::Value::from(CLIENT_ID));
        body.insert("AuthParameters".into(), serde_json::Value::Object(parameters));
        assert_eq!(refresh_body(token), serde_json::Value::Object(body).to_string());
    }
}

#[test]
fn a_token_is_quoted_with_the_escapes_of_json() {
    assert_eq!(
        refresh_body("\"\\\u{8}\t\n\u{c}\r\u{0}\u{1f} é"),
        "{\"AuthFlow\":\"REFRESH_TOKEN_AUTH\",\"AuthParameters\":{\"REFRESH_TOKEN\":\
         \"\\\"\\\\\\b\\t\\n\\f\\r\\u0000\\u001f é\"},\"ClientId\":\
         \"4qte47jbstod8apnfic0bunmrq\"}"
    );
}

#[test]
fn two_tokens_have_two_bodies() {
    assert_ne!(refresh_body("a\"b"), refresh_body("a\\\"b"));
}

#[test]
fn an_unreadable_reply_is_no_refusal() {
    let Err(why) = refreshed(200, "<html>") else {
        panic!("not JSON");
    };
    assert!(why.starts_with("unreadable refresh response: "), "{why}");
    assert_eq!(accepted(Err("eof".into())), Err("unreadable refresh response: eof".into()));
}

#[test]
fn a_challenge_says_that_it_needs_a_person() {
    assert_eq!(
        accepted(Ok(RefreshResponse { result: None })),
        Ok(Refreshed::Rejected {
            kind: "ChallengeRequired".into(),
            message: "Cognito returned no AuthenticationResult; the sign-in needs a person".into(),
        })
    );
}

#[test]
fn a_refusal_without_words_is_told_by_its_status_and_body() {
    let long = "é".repeat(300);
    assert_eq!(
        refreshed(503, &long),
        Ok(Refreshed::Rejected { kind: "HTTP 503".into(), message: "é".repeat(200) })
    );
    assert_eq!(
        rejected(0, "short", Some(RefusedResponse { kind: None, message: None })),
        Refreshed::Rejected { kind: "HTTP 0".into(), message: "short".into() }
    );
    assert_eq!(
        rejected(
            429,
            "body",
            Some(RefusedResponse { kind: Some("Slow".into()), message: None })
        ),
        Refreshed::Rejected { kind: "Slow".into(), message: "body".into() }
    );
}

#[test]
fn reading_gives_back_what_was_written() {
    let bytes: Vec<u8> = (0..=255u8).chain((0..=255u8).rev()).collect();
    for n in 0..=bytes.len() {
        assert_eq!(base64url(&enc(&bytes[..n])), Some(bytes[..n].to_vec()), "{n}");
    }
}

#[test]
fn reading_stops_at_padding_and_refuses_what_is_not_in_the_alphabet() {
    assert_eq!(base64url("TWE="), Some(b"Ma".to_vec()));
    assert_eq!(base64url("TQ==*&^"), Some(b"M".to_vec()));
    assert_eq!(base64url("-_8"), Some(vec![0xfb, 0xff]));
    assert_eq!(base64url("A"), Some(vec![]));
    assert_eq!(base64url(""), Some(vec![]));
    assert_eq!(base64url("+/8"), None);
    assert_eq!(base64url("TWFé"), None);
    assert_eq!(base64url("TW F"), None);
}
