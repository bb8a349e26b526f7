use tv_shell::auth::{
    authorize, ct_eq_str, is_public, presented_token, require_auth, session_cookie, strip_bearer,
    submit, unauthorized, Headers, LoginForm, LoginOutcome, PUBLIC_PATHS,
};
use tv_shell::config::AppConfig;

fn cfg_with_token(token: Option<&str>) -> AppConfig {
    AppConfig {
        panel_token_file: Some("~/.config/tv-shell/panel-token".to_string()),
        panel_token: token.map(str::to_string),
        ..AppConfig::default()
    }
}

fn headers(pairs: &[(&str, &str)]) -> Headers {
    let mut h = Headers::default();
    for (k, v) in pairs {
        let value = Some(v.to_string());
        match *k {
            "authorization" => h.authorization = value,
            "cookie" => h.cookie = value,
            "hx-request" => h.hx_request = value,
            "accept" => h.accept = value,
            other => panic!("no header {other}"),
        }
    }
    h
}

#[test]
fn ct_eq_str_matches_only_identical_strings() {
    assert!(ct_eq_str("token", "token"));
    assert!(!ct_eq_str("token", "tokeN"));
    assert!(!ct_eq_str("token", "token-longer"));
    assert!(!ct_eq_str("", "token"));
    assert!(ct_eq_str("", ""));
}

#[test]
fn authorize_compares_constant_time() {
    let tokens = ["s3kret", "s3kreT", "s3kret-longer", "s3k", "x"];
    for expected in tokens {
        for presented in tokens {
            let cfg = cfg_with_token(Some(expected));
            let h = headers(&[("authorization", &format!("Bearer {presented}"))]);
            assert_eq!(
                authorize(&cfg, &h),
                ct_eq_str(presented, expected),
                "authorize() must compare the credential with ct_eq_str"
            );
        }
    }
}

#[test]
fn exactly_three_public_paths_covering_four_routes() {
    assert_eq!(
        PUBLIC_PATHS,
        ["/assets/htmx.min.js", "/assets/style.css", "/login"]
    );
    assert!(is_public("/login"));
    assert!(!is_public("/nav/daemon-status"));
    assert!(!is_public("/"));
    assert!(!is_public("/assets/../"));
}

#[test]
fn auth_disabled_allows_everything() {
    let cfg = AppConfig::default();
    assert!(!cfg.auth_enabled());
    assert!(authorize(&cfg, &Headers::default()));
}

#[test]
fn auth_enabled_without_a_token_fails_closed() {
    let cfg = cfg_with_token(None);
    assert!(cfg.auth_enabled());
    assert!(!authorize(&cfg, &Headers::default()));
    assert!(!authorize(
        &cfg,
        &headers(&[("authorization", "Bearer anything")])
    ));
}

#[test]
fn bearer_and_cookie_are_both_accepted() {
    let cfg = cfg_with_token(Some("s3kret"));
    assert!(authorize(
        &cfg,
        &headers(&[("authorization", "Bearer s3kret")])
    ));
    assert!(authorize(
        &cfg,
        &headers(&[("authorization", "bearer s3kret")])
    ));
    assert!(authorize(
        &cfg,
        &headers(&[("cookie", "tv_shell_panel_session=s3kret")])
    ));
    assert!(authorize(
        &cfg,
        &headers(&[("cookie", "other=1; tv_shell_panel_session=s3kret; x=2")])
    ));
}

#[test]
fn wrong_or_missing_credentials_are_rejected() {
    let cfg = cfg_with_token(Some("s3kret"));
    assert!(!authorize(&cfg, &Headers::default()));
    assert!(!authorize(
        &cfg,
        &headers(&[("authorization", "Bearer wrong")])
    ));
    assert!(!authorize(
        &cfg,
        &headers(&[("authorization", "Basic czo=")])
    ));
    assert!(!authorize(
        &cfg,
        &headers(&[("cookie", "tv_shell_panel_session=wrong")])
    ));
    assert!(!authorize(
        &cfg,
        &headers(&[("cookie", "unrelated=s3kret")])
    ));
}

#[test]
fn session_cookie_carries_the_hardened_flags_and_no_secure() {
    let c = session_cookie("s3kret");
    assert!(c.starts_with("tv_shell_panel_session=s3kret;"));
    assert!(c.contains("HttpOnly"));
    assert!(c.contains("SameSite=Strict"));
    assert!(c.contains("Path=/"));
    assert!(
        !c.contains("Max-Age") && !c.contains("Expires"),
        "must be a session cookie: {c}"
    );
    assert!(
        !c.contains("Secure"),
        "Secure is deliberately omitted — the panel is plain HTTP on the LAN: {c}"
    );
}

#[test]
fn htmx_gets_a_plain_401_never_a_login_page() {
    let resp = unauthorized(&headers(&[
        ("hx-request", "true"),
        ("accept", "text/html, */*"),
    ]));
    assert_eq!(resp.status, 401);
    assert_eq!(
        resp.content_type.unwrap(),
        "text/plain; charset=utf-8"
    );
}

#[test]
fn browser_navigation_is_redirected_to_login() {
    let resp = unauthorized(&headers(&[(
        "accept",
        "text/html,application/xhtml+xml,application/xml;q=0.9",
    )]));
    assert_eq!(resp.status, 303);
    assert_eq!(resp.location.unwrap(), "/login");
}

#[test]
fn scripted_client_gets_a_401() {
    let resp = unauthorized(&headers(&[("accept", "*/*")]));
    assert_eq!(resp.status, 401);
    let resp = unauthorized(&Headers::default());
    assert_eq!(resp.status, 401);
}

fn login(cfg: &AppConfig, token: &str) -> LoginOutcome {
    submit(cfg, &LoginForm { token: token.to_string() })
}

#[test]
fn a_login_sets_the_cookie_that_authorizes() {
    let cfg = cfg_with_token(Some("s3kret"));
    let cookie = match login(&cfg, " s3kret\n") {
        LoginOutcome::SignedIn { cookie } => cookie,
        other => panic!("{other:?}"),
    };
    assert_eq!(cookie, "tv_shell_panel_session=s3kret; HttpOnly; SameSite=Strict; Path=/");
    let pair = cookie.split(';').next().unwrap();
    assert!(authorize(&cfg, &headers(&[("cookie", pair)])));
}

#[test]
fn a_login_that_fails_shows_the_form() {
    let form = |status, auth_enabled, error| LoginOutcome::Form { status, auth_enabled, error };
    let cfg = cfg_with_token(Some("s3kret"));
    assert_eq!(login(&cfg, "nope"), form(401, true, "Incorrect token."));
    assert_eq!(login(&cfg_with_token(None), ""), form(401, true, "Incorrect token."));
    assert_eq!(
        login(&AppConfig::default(), "x"),
        form(400, false, "Panel authentication is not configured ([panel].token_file is unset).")
    );
    assert_eq!(
        login(&cfg_with_token(Some("a\u{1}b")), "a\u{1}b"),
        form(400, true, "That token cannot be stored in a cookie (unexpected characters).")
    );
}

#[test]
fn public_paths_need_no_credential() {
    let cfg = cfg_with_token(Some("s3kret"));
    let nobody = Headers::default();
    for path in PUBLIC_PATHS {
        assert!(require_auth(&cfg, path, &nobody).is_none());
    }
    let refused = require_auth(&cfg, "/", &nobody).unwrap();
    assert_eq!(refused.status, 401);
    assert_eq!(
        refused.body,
        "unauthorized: POST /login or send `Authorization: Bearer <token>`\n"
    );
    assert!(require_auth(&cfg, "/", &headers(&[("authorization", "Bearer s3kret")])).is_none());
    assert!(require_auth(&AppConfig::default(), "/", &nobody).is_none());
}

#[test]
fn credentials_are_taken_from_the_header_first() {
    assert_eq!(strip_bearer(" bEaReR  tok "), Some("tok".to_string()));
    assert_eq!(strip_bearer("Bearer "), None);
    assert_eq!(strip_bearer("Bearer"), None);
    let both = headers(&[
        ("authorization", "Bearer a"),
        ("cookie", "tv_shell_panel_session=b"),
    ]);
    assert_eq!(presented_token(&both).as_deref(), Some("a"));
    let odd = headers(&[("authorization", "Basic a"), ("cookie", "tv_shell_panel_session=b")]);
    assert_eq!(presented_token(&odd).as_deref(), Some("b"));
}
