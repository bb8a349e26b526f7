use tv_shell::auth::{presented_token, session_cookie, Headers};
use tv_shell::config::{
    daemon_journal_unit, daemon_unit, expand_tilde, join_path, panel_token_path, panel_unit,
    read_owner_only_token, read_token_file, resolve, resolve_token_path, shell_journal_tag,
    shell_unit, socket_path, AppConfig, RawConfig, TokenFile, DEFAULT_PANEL_BIND,
};
use tv_shell::net_addr::parse_socket;

#[test]
fn default_panel_config_is_enabled_on_loopback() {
    let cfg = AppConfig::default();
    assert!(cfg.enabled);
    assert_eq!(cfg.panel_bind_raw, DEFAULT_PANEL_BIND);
    assert_eq!(cfg.panel_bind, parse_socket(DEFAULT_PANEL_BIND).unwrap());
    assert!(cfg.http_bridge_base.is_none());
    assert!(cfg.http_token.is_none());
}

#[test]
fn default_config_has_auth_off_and_dangerous_actions_off() {
    let cfg = AppConfig::default();
    assert!(!cfg.auth_enabled(), "no [panel].token_file ⇒ auth off");
    assert!(cfg.panel_token.is_none());
    assert!(
        !cfg.allow_dangerous,
        "[panel].allow_dangerous must default to false (S5)"
    );
    assert!(!cfg.allow_insecure_lan);
}

#[test]
fn resolve_missing_sections_yields_defaults() {
    let raw = RawConfig::default();
    let cfg = resolve(raw, None, None).unwrap();
    assert!(cfg.enabled);
    assert_eq!(cfg.panel_bind_raw, DEFAULT_PANEL_BIND);
}

#[test]
fn resolve_parses_http_bind_into_bridge_base() {
    let mut raw = RawConfig::default();
    raw.http.bind = Some("127.0.0.1:8089".to_string());
    let cfg = resolve(raw, None, None).unwrap();
    assert_eq!(
        cfg.http_bridge_base.as_deref(),
        Some("http://127.0.0.1:8089")
    );
}

#[test]
fn resolve_empty_http_bind_string_is_treated_as_off() {
    let mut raw = RawConfig::default();
    raw.http.bind = Some(String::new());
    let cfg = resolve(raw, None, None).unwrap();
    assert!(cfg.http_bridge_base.is_none());
}

#[test]
fn resolve_falls_back_on_invalid_panel_bind() {
    let mut raw = RawConfig::default();
    raw.panel.bind = "not-an-addr".to_string();
    let cfg = resolve(raw, None, None).unwrap();
    assert_eq!(cfg.panel_bind, parse_socket(DEFAULT_PANEL_BIND).unwrap());
}

#[test]
fn refuses_to_start_on_non_loopback_bind_with_auth_disabled() {
    let mut raw = RawConfig::default();
    raw.panel.bind = "0.0.0.0:8091".to_string();
    let err = resolve(raw, None, None).expect_err("non-loopback + no token must refuse to start");
    let msg = err;
    assert!(msg.contains("refusing to start"), "{msg}");
    assert!(msg.contains("0.0.0.0:8091"), "{msg}");
    assert!(msg.contains("allow_insecure_lan"), "{msg}");
}

#[test]
fn allow_insecure_lan_downgrades_the_refusal_to_a_loud_log() {
    let mut raw = RawConfig::default();
    raw.panel.bind = "0.0.0.0:8091".to_string();
    raw.dev.allow_insecure_lan = true;
    let cfg = resolve(raw, None, None).expect("[dev].allow_insecure_lan is the documented opt-in");
    assert!(cfg.allow_insecure_lan);
    assert_eq!(cfg.panel_bind, parse_socket("0.0.0.0:8091").unwrap());
}

#[test]
fn loopback_bind_with_auth_disabled_still_starts() {
    let mut raw = RawConfig::default();
    raw.panel.bind = "127.0.0.1:8091".to_string();
    resolve(raw, None, None).expect("loopback + no auth is the documented dev default");
}

#[test]
fn disabled_panel_never_refuses() {
    let mut raw = RawConfig::default();
    raw.panel.enabled = false;
    raw.panel.bind = "0.0.0.0:8091".to_string();
    let cfg = resolve(raw, None, None).expect("a disabled panel binds nothing");
    assert!(!cfg.enabled);
}

const FIELD: &str = "[panel].token_file";
const DIR: &str = "/home/tv/.config/tv-shell";

fn read_panel_token(name: &str, contents: &str, mode: u32, dir: &str) -> Result<String, String> {
    let path = format!("{DIR}/{name}");
    let resolved = resolve_token_path(&path, Ok(path.clone()), Ok(dir.to_string()), FIELD)?;
    let file = TokenFile {
        mode: Some(Ok(mode)),
        content: Ok(contents.to_string()),
    };
    read_owner_only_token(&file, &resolved, FIELD)
}

#[test]
fn panel_token_reads_a_0600_file_inside_the_config_dir() {
    let read = read_panel_token("ok", "  s3kret\n", 0o600, DIR).unwrap();
    assert_eq!(read, "s3kret");
}

#[test]
fn panel_token_refuses_an_empty_file() {
    let msg = read_panel_token("empty", "   \n", 0o600, DIR)
        .expect_err("an empty token file must abort startup, not degrade to no-token");
    assert!(msg.contains("is empty"), "{msg}");
    assert!(msg.contains("refusing to start"), "{msg}");
}

#[test]
fn panel_token_refuses_characters_that_break_the_session_cookie() {
    for (name, contents) in [
        ("semicolon", "abc;def\n"),
        ("space", "abc def\n"),
        ("comma", "abc,def\n"),
        ("quote", "abc\"def\n"),
        ("backslash", "abc\\def\n"),
        ("non-ascii", "abcédef\n"),
    ] {
        let outcome = read_panel_token(name, contents, 0o600, DIR)
            .map(|t| format!("ACCEPTED {t:?}"))
            .unwrap_or_else(|e| e);
        assert!(
            outcome.contains("not valid in a cookie value"),
            "{name}: must be refused at startup, got: {outcome}"
        );
    }
}

#[test]
fn an_accepted_token_round_trips_through_the_session_cookie() {
    let read = read_panel_token(
        "roundtrip",
        "aZ09-_.~+/=!#$%&'*^`|{}[]()<>:?@\n",
        0o600,
        DIR,
    )
    .unwrap();

    let set_cookie = session_cookie(&read);
    let pair = set_cookie.split(';').next().unwrap().to_string();
    let headers = Headers {
        cookie: Some(pair),
        ..Headers::default()
    };
    assert_eq!(
        presented_token(&headers).as_deref(),
        Some(read.as_str()),
        "an accepted token must come back out of the cookie unchanged"
    );
}

#[test]
fn panel_token_refuses_a_group_or_world_readable_file() {
    let err = read_panel_token("perms", "s3kret\n", 0o644, DIR)
        .expect_err("a world-readable credential must abort startup");
    assert!(err.contains("group/other-accessible"), "{err}");
}

#[test]
fn panel_token_refuses_a_path_outside_the_config_dir() {
    let elsewhere = format!("{DIR}/elsewhere");
    let err = read_panel_token("escape", "s3kret\n", 0o600, &elsewhere)
        .expect_err("a token file outside the config dir must abort startup");
    assert!(err.contains("escapes the config directory"), "{err}");
}

#[test]
fn panel_token_refuses_a_missing_file() {
    let path = format!("{DIR}/nope");
    let missing = Err("No such file or directory (os error 2)".to_string());
    let err = resolve_token_path(&path, missing, Ok(DIR.to_string()), FIELD)
        .expect_err("a configured-but-missing token file must abort startup");
    assert!(err.contains("cannot resolve token file path"), "{err}");
}

#[test]
fn read_token_file_expands_tilde_and_trims() {
    assert_eq!(
        expand_tilde("~/token", Some("/home/testuser")),
        "/home/testuser/token"
    );
    let read = read_token_file(Some("  sekret-token\n"));
    assert_eq!(read.as_deref(), Some("sekret-token"));

    assert_eq!(read_token_file(Some("   \n")), None);

    assert_eq!(read_token_file(None), None);
}

#[test]
fn expand_tilde_prefixes_home() {
    let home = Some("/home/testuser");
    assert_eq!(
        expand_tilde("~/config.toml", home),
        "/home/testuser/config.toml"
    );
    assert_eq!(expand_tilde("/absolute/path", home), "/absolute/path");
}

#[test]
fn unit_and_journal_names_use_slug() {
    assert_eq!(daemon_unit(), "tv-shell-input.service");
    assert_eq!(shell_unit(), "tv-shell-quickshell.service");
    assert_eq!(panel_unit(), "tv-shell-panel.service");
    assert_eq!(daemon_journal_unit(), "tv-shell-input");
    assert_eq!(shell_journal_tag(), "tv-shell-quickshell");
}

#[test]
fn socket_path_prefers_env_override() {
    assert_eq!(
        socket_path(Some("/tmp/custom.sock"), Some("/run/user/1000"), 1000, "input.sock"),
        "/tmp/custom.sock"
    );
}

#[test]
fn a_credential_opens_other_addresses() {
    let mut raw = RawConfig::default();
    raw.panel.bind = "[::]:8091".to_string();
    raw.panel.token_file = Some("~/t".to_string());
    raw.http.token_file = Some("~/h".to_string());
    assert_eq!(panel_token_path(&raw), Some("~/t"));
    let cfg = resolve(raw.clone(), Some(Ok("s3kret".to_string())), Some("h".to_string())).unwrap();
    assert!(cfg.auth_enabled());
    assert_eq!(cfg.panel_token.as_deref(), Some("s3kret"));
    assert_eq!(cfg.http_token.as_deref(), Some("h"));
    assert_eq!(resolve(raw.clone(), Some(Err("no file".to_string())), None).unwrap_err(), "no file");
    assert_eq!(resolve(raw.clone(), None, None).unwrap_err(), "panel.token_file was not read");
    raw.panel.bind = "127.0.0.1:8091".to_string();
    assert_eq!(resolve(raw.clone(), None, None).unwrap_err(), "panel.token_file was not read");
    raw.panel.enabled = false;
    assert_eq!(panel_token_path(&raw), None);
    assert!(resolve(raw, None, None).is_ok());
}

#[test]
fn credential_files_say_what_is_wrong_with_them() {
    let file = |mode, content: Result<&str, &str>| TokenFile {
        mode,
        content: content.map(str::to_string).map_err(str::to_string),
    };
    let read = |f: TokenFile| read_owner_only_token(&f, "/t", FIELD);
    assert_eq!(read(file(None, Ok(" tok "))), Ok("tok".to_string()));
    let stat = read(file(Some(Err("gone".to_string())), Ok("tok"))).unwrap_err();
    assert!(stat.contains("stat failed: gone"), "{stat}");
    let io = read(file(Some(Ok(0o600)), Err("denied"))).unwrap_err();
    assert!(io.contains("denied"), "{io}");
    let mode = read(file(Some(Ok(0o100640)), Ok("tok"))).unwrap_err();
    assert!(mode.contains("(mode 640)"), "{mode}");
    let odd = read(file(None, Ok("a;b"))).unwrap_err();
    assert!(odd.contains("';'"), "{odd}");
}

#[test]
fn paths_are_put_together() {
    assert_eq!(join_path("/a", "b"), "/a/b");
    assert_eq!(join_path("/a/", "b"), "/a/b");
    assert_eq!(join_path("/a", "/b"), "/b");
    assert_eq!(expand_tilde("~/x", None), "~/x");
    assert_eq!(socket_path(None, Some("/run/user/5"), 5, "s.sock"), "/run/user/5/s.sock");
    assert_eq!(socket_path(None, None, 5, "s.sock"), "/run/user/5/s.sock");
}
