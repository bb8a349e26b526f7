use tv_shell::host::{
    authorize, choose_token, generate_token, hex_token, is_loopback_bind, resolve_token, TokenChoice,
};

fn bearer(tok: &str) -> String {
    format!("Bearer {tok}")
}

#[test]
fn authorize_accepts_matching_token() {
    assert!(authorize("sekret", Some(&bearer("sekret"))));
}

#[test]
fn authorize_rejects_wrong_token() {
    assert!(!authorize("sekret", Some(&bearer("nope"))));
}

#[test]
fn authorize_rejects_token_with_trailing_spaces() {
    assert!(!authorize("sekret", Some(&bearer("sekret   "))));
}

#[test]
fn authorize_rejects_missing_header() {
    assert!(!authorize("sekret", None));
}

#[test]
fn authorize_rejects_non_bearer() {
    assert!(!authorize("sekret", Some("Basic sekret")));
}

#[test]
fn generated_token_is_64_hex_chars() {
    let t = generate_token().unwrap();
    assert_eq!(t.len(), 64);
    assert!(t.chars().all(|c| c.is_ascii_hexdigit()));
}

#[test]
fn generated_token_is_not_deterministic_in_time_and_pid() {
    let a = generate_token().unwrap();
    let b = generate_token().unwrap();
    assert_ne!(
        a, b,
        "two CSPRNG draws in the same process must not collide"
    );
}

#[test]
fn refuses_non_loopback_bind_with_no_token() {
    let err = resolve_token("0.0.0.0", 47995, None).unwrap_err();
    let msg = err.to_string();
    assert!(msg.contains("TV_SHELL_HOST_TOKEN"), "message: {msg}");
    assert!(msg.contains("0.0.0.0"), "message: {msg}");
}

#[test]
fn refuses_ipv6_wildcard_bind_with_no_token() {
    assert!(resolve_token("::", 47995, None).is_err());
}

#[test]
fn refuses_unparseable_hostname_bind_with_no_token() {
    assert!(resolve_token("localhost", 47995, None).is_err());
}

#[test]
fn loopback_bind_with_no_token_starts_and_generates_one() {
    let t = resolve_token("127.0.0.1", 47995, None).unwrap();
    assert_eq!(t.len(), 64);
    assert!(t.chars().all(|c| c.is_ascii_hexdigit()));
}

#[test]
fn ipv6_loopback_bind_with_no_token_starts() {
    assert!(resolve_token("::1", 47995, None).is_ok());
}

#[test]
fn explicit_token_wins_regardless_of_bind() {
    assert_eq!(
        resolve_token("0.0.0.0", 47995, Some("sekret".to_string())).unwrap(),
        "sekret"
    );
    assert_eq!(
        resolve_token("127.0.0.1", 47995, Some("sekret".to_string())).unwrap(),
        "sekret"
    );
}

#[test]
fn empty_or_whitespace_token_on_non_loopback_still_refuses() {
    assert!(resolve_token("0.0.0.0", 47995, Some(String::new())).is_err());
    assert!(resolve_token("0.0.0.0", 47995, Some("   ".to_string())).is_err());
}

#[test]
fn is_loopback_bind_classifies_correctly() {
    assert!(is_loopback_bind("127.0.0.1"));
    assert!(is_loopback_bind("127.5.5.5"));
    assert!(is_loopback_bind("::1"));
    assert!(!is_loopback_bind("0.0.0.0"));
    assert!(!is_loopback_bind("::"));
    assert!(!is_loopback_bind("192.168.1.10"));
    assert!(!is_loopback_bind("localhost"));
    assert!(!is_loopback_bind(""));
}

#[test]
fn bytes_are_written_as_hex_digits() {
    let mut bytes = [0u8; 32];
    bytes[0] = 0x0f;
    bytes[31] = 0xa0;
    let text = hex_token(&bytes);
    assert_eq!(text.len(), 64);
    assert!(text.starts_with("0f00"));
    assert!(text.ends_with("00a0"));
}

#[test]
fn the_refusal_names_the_address() {
    let refused = match choose_token("0.0.0.0", 47995, Some("  ".to_string())) {
        TokenChoice::Refused(m) => m,
        _ => panic!("an open address needs a token"),
    };
    assert!(refused.starts_with(
        "refusing to start: TV_SHELL_HOST_TOKEN is unset and TV_SHELL_HOST_BIND=\"0.0.0.0\" (port 47995)"
    ));
    assert!(matches!(choose_token("::1", 1, None), TokenChoice::Generated));
    assert!(!authorize("sekret", Some("Bearer")));
}
