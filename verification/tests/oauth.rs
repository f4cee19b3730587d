use inderes::auth::{ensure_access_token, ensure_access_token_at, TokenNeed};
use inderes::moment::Moment;
use inderes::oauth::{
    accept_tokens, build_auth_url, code_after_wait, exchange_code, parse_callback_path,
    parse_pasted_callback, path_of_request, pkce_s256, random_urlsafe, random_verifier, read_code,
    receive_tokens, receive_tokens_at, redirect_uri, refresh, serve_callback, urlsafe, userinfo, CallbackError, CallbackWait,
    IdpConfig, LoginMode, TokenResponse, DEFAULT_SCOPES,
};
use inderes::storage::{backend_description, choose_path, Tokens};

// --- the identity provider -----------------------------------------------------------

#[test]
fn the_default_realm_is_the_production_one() {
    let c = IdpConfig::inderes_default();
    assert_eq!(
        c.authorization_endpoint,
        "https://sso.inderes.fi/auth/realms/Inderes/protocol/openid-connect/auth"
    );
    assert_eq!(
        c.token_endpoint,
        "https://sso.inderes.fi/auth/realms/Inderes/protocol/openid-connect/token"
    );
    assert_eq!(
        c.userinfo_endpoint,
        "https://sso.inderes.fi/auth/realms/Inderes/protocol/openid-connect/userinfo"
    );
    assert_eq!(c.client_id, "inderes-mcp");
}

#[test]
fn the_environment_overrides_single_settings() {
    let c = IdpConfig::from_env(None, Some("t".into()), None, Some("".into()));
    assert_eq!(c.token_endpoint, "t");
    assert_eq!(c.client_id, "");
    assert_eq!(
        c.authorization_endpoint,
        IdpConfig::inderes_default().authorization_endpoint
    );
    assert_eq!(LoginMode::of(true), LoginMode::PasteCallback);
    assert_eq!(LoginMode::of(false), LoginMode::Loopback);
}

// --- secrets ---------------------------------------------------------------------------

#[test]
fn base64_is_for_addresses_and_without_padding() {
    assert_eq!(urlsafe(&vec![]), "");
    assert_eq!(urlsafe(&b"f".to_vec()), "Zg");
    assert_eq!(urlsafe(&b"fo".to_vec()), "Zm8");
    assert_eq!(urlsafe(&b"foo".to_vec()), "Zm9v");
    assert_eq!(urlsafe(&b"foobar".to_vec()), "Zm9vYmFy");
    assert_eq!(urlsafe(&vec![0xfb, 0xff, 0xfe]), "-__-");
}

#[test]
fn the_challenge_is_the_digest_of_the_verifier() {
    // The example in appendix B of RFC 7636.
    assert_eq!(
        pkce_s256("dBjftJeZ4CVP-mB92K27uhbUJU1p1r_wW1gFWFOEjXk"),
        "E9Melhoa2OwvFrEMTJguCHaoeK1t8URWbuGJSstw-cM"
    );
    assert_eq!(pkce_s256("").len(), 43);
}

#[test]
fn a_verifier_has_the_right_shape() {
    let v = random_verifier();
    assert_eq!(v.len(), 86);
    assert!(v
        .chars()
        .all(|c| c.is_ascii_alphanumeric() || c == '-' || c == '_'));
    assert_ne!(random_verifier(), v);
    assert_eq!(random_urlsafe(24).len(), 32);
    assert_eq!(random_urlsafe(0), "");
}

// --- addresses ---------------------------------------------------------------------------

#[test]
fn the_sign_in_address_carries_everything() {
    let mut idp = IdpConfig::inderes_default();
    idp.authorization_endpoint = "https://idp.example/auth".into();
    let url = build_auth_url(
        &idp,
        &redirect_uri(4321),
        "chal",
        "st&te",
        &DEFAULT_SCOPES,
    )
    .unwrap();
    assert_eq!(
        url,
        "https://idp.example/auth?response_type=code&client_id=inderes-mcp&redirect_uri=http%3A%2F%2F127.0.0.1%3A4321%2Fcallback&scope=openid+offline_access+profile+email&state=st%26te&code_challenge=chal&code_challenge_method=S256"
    );
}

#[test]
fn the_sign_in_address_keeps_the_query_of_the_endpoint() {
    let mut idp = IdpConfig::inderes_default();
    idp.authorization_endpoint = "https://idp.example/auth?tenant=a#frag".into();
    let url = build_auth_url(&idp, "r", "c", "s", &["x"]).unwrap();
    assert!(url.starts_with("https://idp.example/auth?tenant=a&response_type=code&"));
    assert!(url.ends_with("#frag"));
    // What was written can be read back.
    assert_eq!(
        parse_pasted_callback(&format!("{}&code=k", url.replace("#frag", "")), "s").unwrap(),
        "k"
    );
    idp.authorization_endpoint = "not an address".into();
    assert_eq!(
        build_auth_url(&idp, "r", "c", "s", &[]).unwrap_err(),
        "relative URL without a base"
    );
}

// --- the callback ------------------------------------------------------------------------

#[test]
fn a_callback_brings_its_code() {
    assert_eq!(
        parse_callback_path("/callback?code=a%20b%2Bc&state=xyz", "xyz").unwrap(),
        "a b+c"
    );
    assert_eq!(
        parse_pasted_callback(" http://127.0.0.1:46233/callback?state=xyz&code=abc\n", "xyz")
            .unwrap(),
        "abc"
    );
}

fn failure(path: &str) -> String {
    parse_callback_path(path, "xyz").unwrap_err().message()
}

#[test]
fn a_callback_says_why_it_brings_no_code() {
    assert_eq!(
        failure("/favicon.ico"),
        "unexpected callback path: /favicon.ico"
    );
    assert_eq!(failure("/callback"), "missing `state` in callback");
    assert_eq!(
        failure("/callback?code=a&state=evil"),
        "state mismatch — possible CSRF; aborting"
    );
    assert_eq!(failure("/callback?state=xyz"), "missing `code` in callback");
    assert_eq!(
        failure("/callback?error=access_denied&error_description=no+way&state=xyz&code=a"),
        "authorization server returned access_denied: no way"
    );
    assert_eq!(
        failure("/callback?error=e"),
        "authorization server returned e: "
    );
    let e = parse_pasted_callback("nonsense", "xyz").unwrap_err();
    assert_eq!(
        e.message(),
        "unparseable callback URL: relative URL without a base"
    );
}

#[test]
fn the_last_of_several_values_counts() {
    assert_eq!(
        parse_callback_path("/callback?code=a&state=evil&state=xyz&code=b", "xyz").unwrap(),
        "b"
    );
    let pairs = vec![
        ("state".to_string(), "xyz".to_string()),
        ("code".to_string(), "k".to_string()),
        ("state".to_string(), "evil".to_string()),
    ];
    assert!(matches!(
        read_code(&pairs, "xyz"),
        Err(CallbackError::StateMismatch)
    ));
    assert_eq!(read_code(&pairs, "evil").unwrap(), "k");
}

#[test]
fn a_callback_request_is_answered_with_a_page() {
    assert_eq!(
        path_of_request("GET /callback?x=1 HTTP/1.1\r\nHost: a\r\n\r\n"),
        "/callback?x=1"
    );
    assert_eq!(path_of_request("GET"), "");
    assert_eq!(path_of_request(""), "");

    let ok = serve_callback(b"GET /callback?code=c&state=s HTTP/1.1\r\n\r\n", "s");
    assert_eq!(ok.outcome.unwrap(), "c");
    assert!(ok.response.starts_with("HTTP/1.1 200 OK\r\nContent-Type: text/html; charset=utf-8\r\nContent-Length: "));
    let (head, body) = ok.response.split_once("\r\n\r\n").unwrap();
    assert!(head.contains(&format!("Content-Length: {}\r\n", body.len())));
    assert!(body.contains("<h1>Signed in</h1>"));

    let bad = serve_callback(b"", "s");
    assert!(bad.outcome.is_err());
    assert!(bad.response.starts_with("HTTP/1.1 400 Bad Request\r\n"));
    assert!(bad.response.contains("Sign-in failed"));
}

#[test]
fn the_wait_for_a_callback_ends_in_a_code_or_in_words() {
    assert_eq!(
        code_after_wait(CallbackWait::Came(Ok("c".into()))).unwrap(),
        "c"
    );
    assert_eq!(
        code_after_wait(CallbackWait::Came(Err(CallbackError::MissingCode))).unwrap_err(),
        "login failed: missing `code` in callback"
    );
    assert_eq!(
        code_after_wait(CallbackWait::Closed).unwrap_err(),
        "login aborted: callback channel closed"
    );
    assert_eq!(
        code_after_wait(CallbackWait::TimedOut).unwrap_err(),
        "login timed out after 5 minutes"
    );
}

// --- tokens --------------------------------------------------------------------------------

fn pairs(v: &[(&str, &str)]) -> Vec<(String, String)> {
    v.iter()
        .map(|(a, b)| (a.to_string(), b.to_string()))
        .collect()
}

#[test]
fn forms_ask_for_tokens() {
    let idp = IdpConfig::inderes_default();
    assert_eq!(
        exchange_code(&idp, "c", "r", "v"),
        pairs(&[
            ("grant_type", "authorization_code"),
            ("client_id", "inderes-mcp"),
            ("code", "c"),
            ("redirect_uri", "r"),
            ("code_verifier", "v"),
        ])
    );
    assert_eq!(
        refresh(&idp, "rt"),
        pairs(&[
            ("grant_type", "refresh_token"),
            ("client_id", "inderes-mcp"),
            ("refresh_token", "rt"),
        ])
    );
}

fn response() -> TokenResponse {
    TokenResponse {
        access_token: "at".into(),
        refresh_token: Some("rt".into()),
        expires_in: None,
        token_type: Some("Bearer".into()),
        scope: None,
        error: None,
        error_description: None,
    }
}

#[test]
fn tokens_are_taken_out_of_an_answer() {
    let now = Moment::new(1_000, 5).unwrap();
    let t = accept_tokens(response(), now).unwrap();
    assert_eq!(t.access_token, "at");
    assert_eq!(t.refresh_token.as_deref(), Some("rt"));
    assert_eq!(t.token_type.as_deref(), Some("Bearer"));
    assert_eq!(t.scope, None);
    assert_eq!((t.expires_at.seconds(), t.expires_at.nanoseconds()), (1_300, 5));

    let mut r = response();
    r.expires_in = Some(-60);
    assert_eq!(accept_tokens(r, now).unwrap().expires_at.seconds(), 940);

    let mut r = response();
    r.error = Some("invalid_grant".into());
    r.error_description = Some("expired".into());
    assert_eq!(
        accept_tokens(r, now).unwrap_err(),
        "Keycloak invalid_grant: expired"
    );
    let mut r = response();
    r.error = Some("x".into());
    assert_eq!(accept_tokens(r, now).unwrap_err(), "Keycloak x: ");
}

fn sample() -> Tokens {
    Tokens {
        access_token: "at".into(),
        refresh_token: Some("rt".into()),
        expires_at: Moment::new(1_000, 0).unwrap(),
        token_type: Some("Bearer".into()),
        scope: Some("openid offline_access".into()),
    }
}

#[test]
fn is_expiring_detects_skew() {
    let now = time::OffsetDateTime::now_utc().unix_timestamp();
    let mut t = sample();
    t.expires_at = Moment::new(now + 10, 0).unwrap();
    assert!(t.is_expiring(30));
    t.expires_at = Moment::new(now + 120, 0).unwrap();
    assert!(!t.is_expiring(30));
}

#[test]
fn expiry_counts_to_the_nanosecond() {
    let t = sample();
    let at = |secs, nanos| Moment::new(secs, nanos).unwrap();
    assert!(t.is_expiring_at(30, at(970, 0)));
    // More than thirty seconds are left, be it by a nanosecond.
    assert!(!t.is_expiring_at(30, at(969, 999_999_999)));
    assert!(!t.is_expiring_at(30, at(969, 1)));
    assert!(t.is_expiring_at(30, at(970, 1)));
    assert!(!t.is_expiring_at(0, at(999, 500)));
    assert!(t.is_expiring_at(0, at(1_000, 0)));
    assert!(t.is_expiring_at(i64::MAX, at(0, 0)));
    assert!(!t.is_expiring_at(i64::MIN, at(0, 0)));
    assert!(t.is_expiring_at(-1, at(1_001, 0)));
    assert!(!t.is_expiring_at(-1, at(1_000, 999_999_999)));
    assert_eq!(at(1_000, 0).seconds_since(&at(1_001, 500_000_000)), -1);
    assert!(Moment::new(0, 1_000_000_000).is_none());
    assert!(Moment::new(i64::MAX, 0).is_none());
    assert!(at(0, 0).can_add(253_402_300_799));
    assert!(!at(0, 0).can_add(253_402_300_800));
    assert_eq!(at(5, 7).plus(-10).seconds(), -5);
}

#[test]
fn a_stored_token_is_used_refreshed_or_missed() {
    let at = |secs| Moment::new(secs, 0).unwrap();
    match ensure_access_token_at(&Some(sample()), at(900)) {
        TokenNeed::Use(t) => assert_eq!(t, "at"),
        other => panic!("got: {other:?}"),
    }
    match ensure_access_token_at(&Some(sample()), at(980)) {
        TokenNeed::Refresh(t) => assert_eq!(t, "rt"),
        other => panic!("got: {other:?}"),
    }
    let mut t = sample();
    t.refresh_token = None;
    match ensure_access_token_at(&Some(t), at(980)) {
        TokenNeed::SignIn(why) => assert_eq!(
            why.message(),
            "access token expired and no refresh token stored — run `inderes login`"
        ),
        other => panic!("got: {other:?}"),
    }
    match ensure_access_token_at(&None, at(0)) {
        TokenNeed::SignIn(why) => assert_eq!(
            why.message(),
            "not signed in — run `inderes login` first"
        ),
        other => panic!("got: {other:?}"),
    }
}

#[test]
fn the_clock_decides_what_a_stored_token_is_good_for() {
    let now = time::OffsetDateTime::now_utc().unix_timestamp();
    let mut t = sample();
    t.expires_at = Moment::new(now + 120, 0).unwrap();
    assert!(matches!(ensure_access_token(&Some(t)), TokenNeed::Use(_)));
    assert!(matches!(ensure_access_token(&Some(sample())), TokenNeed::Refresh(_)));
    assert!(matches!(ensure_access_token(&None), TokenNeed::SignIn(_)));
}

#[test]
fn tokens_are_valid_from_when_they_are_received() {
    let before = time::OffsetDateTime::now_utc().unix_timestamp();
    let t = receive_tokens(response()).unwrap().unwrap();
    let after = time::OffsetDateTime::now_utc().unix_timestamp();
    assert!(before + 300 <= t.expires_at.seconds() && t.expires_at.seconds() <= after + 300);

    let mut r = response();
    r.expires_in = Some(i64::MAX);
    assert!(receive_tokens(r).is_none());
    let at = |secs| {
        let mut r = response();
        r.expires_in = Some(secs);
        receive_tokens_at(r, Moment::new(100, 7).unwrap())
    };
    assert_eq!(at(253_402_300_699).unwrap().unwrap().expires_at.seconds(), 253_402_300_799);
    assert!(at(253_402_300_700).is_none());
    let mut r = response();
    r.expires_in = Some(i64::MAX);
    r.error = Some("x".into());
    assert_eq!(receive_tokens(r).unwrap().unwrap_err(), "Keycloak x: ");
}

#[test]
fn the_provider_says_who_signed_in() {
    let v = userinfo(200, "200 OK", "{\"email\": \"a@b\"}").unwrap();
    assert_eq!(v.get_str("email"), Some("a@b"));
    assert_eq!(
        userinfo(401, "401 Unauthorized", "nope").unwrap_err(),
        "userinfo returned 401 Unauthorized: nope"
    );
    assert!(userinfo(200, "200 OK", "<").is_err());
}

#[test]
fn the_token_file_is_described() {
    assert_eq!(backend_description(Ok("/a/tokens.json")), "file: /a/tokens.json");
    assert_eq!(
        backend_description(Err("no home")),
        "file: <unresolvable: no home>"
    );
    let some = |s: &str| Some(s.to_string());
    assert_eq!(choose_path(&some("/x"), &some("/d")), some("/x"));
    assert_eq!(choose_path(&some(""), &some("/d")), some("/d"));
    assert_eq!(choose_path(&None, &None), None);
}
