use tv_shell::wol::{
    cached_mac, configured_mac_for, handle_wol, magic_packet, neighbor_mac, parse_ip_neigh,
    pick_mac, read_cache, remember, resolve_ipv4, resolve_mac, url_host, wake_target, wol_outcome,
    write_cache, Mac, SteamHostConfig, WolOutcome,
};
use tv_shell::net_addr::Ip;

#[test]
fn parses_mac_colon_and_dash() {
    assert_eq!(
        Mac::parse("aa:bb:cc:dd:ee:ff"),
        Some(Mac([0xaa, 0xbb, 0xcc, 0xdd, 0xee, 0xff]))
    );
    assert_eq!(
        Mac::parse("AA-BB-CC-DD-EE-FF"),
        Some(Mac([0xaa, 0xbb, 0xcc, 0xdd, 0xee, 0xff]))
    );
    assert_eq!(
        Mac::parse("00:1A:2b:3C:4d:5E"),
        Some(Mac([0x00, 0x1a, 0x2b, 0x3c, 0x4d, 0x5e]))
    );
}

#[test]
fn rejects_malformed_mac() {
    assert_eq!(Mac::parse(""), None);
    assert_eq!(Mac::parse("aa:bb:cc:dd:ee"), None); // too few
    assert_eq!(Mac::parse("aa:bb:cc:dd:ee:ff:00"), None); // too many
    assert_eq!(Mac::parse("zz:bb:cc:dd:ee:ff"), None); // non-hex
}

#[test]
fn mac_to_canonical_is_lowercase_colon() {
    assert_eq!(
        Mac([0xaa, 0xbb, 0xcc, 0x00, 0x0e, 0xff]).to_canonical(),
        "aa:bb:cc:00:0e:ff"
    );
}

#[test]
fn magic_packet_is_102_bytes_with_header_and_repetitions() {
    let mac = Mac([0x01, 0x02, 0x03, 0x04, 0x05, 0x06]);
    let packet = magic_packet(mac);
    assert_eq!(packet.len(), 102);
    assert_eq!(&packet[0..6], &[0xFF; 6]);
    for i in 0..16 {
        let start = 6 + i * 6;
        assert_eq!(&packet[start..start + 6], &mac.0, "repetition {i}");
    }
}

#[test]
fn parses_ip_neigh_matching_host_to_mac() {
    let output = "\
192.0.2.10 dev eth0 lladdr aa:bb:cc:dd:ee:ff REACHABLE
192.0.2.20 dev eth0 lladdr 11:22:33:44:55:66 STALE
192.0.2.30 dev eth0  FAILED
192.0.2.40 dev eth0 lladdr 77:88:99:aa:bb:cc DELAY
";
    let table = parse_ip_neigh(output);
    assert_eq!(
        table.get("192.0.2.10").copied(),
        Some(Mac([0xaa, 0xbb, 0xcc, 0xdd, 0xee, 0xff]))
    );
    assert_eq!(
        table.get("192.0.2.20").copied(),
        Some(Mac([0x11, 0x22, 0x33, 0x44, 0x55, 0x66]))
    );
    assert!(!table.contains_key("192.0.2.30"));
    assert_eq!(
        table.get("192.0.2.40").copied(),
        Some(Mac([0x77, 0x88, 0x99, 0xaa, 0xbb, 0xcc]))
    );
}

#[test]
fn parses_ip_neigh_empty_and_garbage() {
    assert!(parse_ip_neigh("").is_empty());
    assert!(parse_ip_neigh("garbage line with no lladdr").is_empty());
}

#[test]
fn resolve_ipv4_passes_through_literal_v4() {
    assert_eq!(resolve_ipv4("192.0.2.1", &[]).as_deref(), Some("192.0.2.1"));
}

#[test]
fn resolve_ipv4_rejects_v6_literal() {
    assert_eq!(resolve_ipv4("::1", &[]), None);
}

const CONFIGURED: Mac = Mac([0x01, 0x01, 0x01, 0x01, 0x01, 0x01]);
const NEIGHBOR: Mac = Mac([0x02, 0x02, 0x02, 0x02, 0x02, 0x02]);
const CACHED: Mac = Mac([0x03, 0x03, 0x03, 0x03, 0x03, 0x03]);

#[test]
fn pick_mac_prefers_configured_and_skips_both_fallbacks() {
    let mut neighbor_called = false;
    let mut cache_called = false;
    let got = pick_mac(
        Some("01:01:01:01:01:01"),
        || {
            neighbor_called = true;
            Some(NEIGHBOR)
        },
        || {
            cache_called = true;
            Some(CACHED)
        },
    );
    assert_eq!(got, Some(CONFIGURED));
    assert!(!neighbor_called, "neighbor table must not be consulted");
    assert!(!cache_called, "MAC cache must not be consulted");
}

#[test]
fn pick_mac_falls_back_to_neighbor_when_unconfigured() {
    let mut cache_called = false;
    let got = pick_mac(
        None,
        || Some(NEIGHBOR),
        || {
            cache_called = true;
            Some(CACHED)
        },
    );
    assert_eq!(got, Some(NEIGHBOR));
    assert!(!cache_called, "cache is only the last resort");
}

#[test]
fn pick_mac_falls_back_to_cache_when_neighbor_misses() {
    assert_eq!(pick_mac(None, || None, || Some(CACHED)), Some(CACHED));
}

#[test]
fn pick_mac_none_when_every_source_is_empty() {
    assert_eq!(pick_mac(None, || None, || None), None);
}

#[test]
fn pick_mac_ignores_unparseable_configured_and_degrades_to_discovery() {
    assert_eq!(
        pick_mac(Some("not-a-mac"), || Some(NEIGHBOR), || Some(CACHED)),
        Some(NEIGHBOR)
    );
    assert_eq!(pick_mac(Some(""), || None, || Some(CACHED)), Some(CACHED));
}

#[test]
fn pick_mac_accepts_dash_separated_and_uppercase_configured() {
    assert_eq!(
        pick_mac(Some("01-01-01-01-01-01"), || None, || None),
        Some(CONFIGURED)
    );
    assert_eq!(
        pick_mac(Some("01:01:01:01:01:01"), || None, || None),
        Some(CONFIGURED)
    );
}

fn host_cfg(name: &str, url: &str, mac: Option<&str>) -> SteamHostConfig {
    SteamHostConfig {
        name: name.to_string(),
        url: url.to_string(),
        token_file: None,
        mac: mac.map(str::to_string),
    }
}

#[test]
fn configured_mac_matches_host_by_url_host_part() {
    let hosts = vec![
        host_cfg(
            "linux",
            "http://192.0.2.10:47995",
            Some("aa:bb:cc:dd:ee:ff"),
        ),
        host_cfg(
            "windows",
            "http://192.0.2.20:47995",
            Some("11:22:33:44:55:66"),
        ),
    ];
    assert_eq!(
        configured_mac_for(&hosts, "192.0.2.10").as_deref(),
        Some("aa:bb:cc:dd:ee:ff")
    );
    assert_eq!(
        configured_mac_for(&hosts, "192.0.2.20").as_deref(),
        Some("11:22:33:44:55:66")
    );
    assert_eq!(configured_mac_for(&hosts, "192.0.2.99"), None);
    assert_eq!(configured_mac_for(&[], "192.0.2.10"), None);
    let no_mac = vec![host_cfg("linux", "http://192.0.2.10:47995", None)];
    assert_eq!(configured_mac_for(&no_mac, "192.0.2.10"), None);
}

#[test]
fn configured_mac_matches_hostname_urls_too() {
    let hosts = vec![host_cfg(
        "gaming-pc",
        "http://gaming-pc:47995/",
        Some("aa:bb:cc:dd:ee:ff"),
    )];
    assert_eq!(
        configured_mac_for(&hosts, "gaming-pc").as_deref(),
        Some("aa:bb:cc:dd:ee:ff")
    );
    assert_eq!(configured_mac_for(&hosts, "http://gaming-pc:47995"), None);
}

const TABLE: &str = "192.0.2.10 dev eth0 lladdr 02:02:02:02:02:02 REACHABLE\n";

#[test]
fn a_name_has_the_first_address_of_version_four() {
    let six = Ip::V6(vec![0, 0, 0, 0, 0, 0, 0, 1]);
    let found = [six.clone(), Ip::V4(192, 0, 2, 7), Ip::V4(192, 0, 2, 8)];
    assert_eq!(resolve_ipv4("gaming-pc", &found).as_deref(), Some("192.0.2.7"));
    assert_eq!(resolve_ipv4("gaming-pc", &[six]), None);
    assert_eq!(resolve_ipv4("192.0.2.1", &found).as_deref(), Some("192.0.2.1"));
}

#[test]
fn what_a_neighbour_said_is_remembered() {
    let mut cache = vec![("other".to_string(), "01:01:01:01:01:01".to_string())];
    assert_eq!(neighbor_mac(TABLE, &mut cache, "pc", "192.0.2.99"), None);
    assert_eq!(cache.len(), 1);
    assert_eq!(neighbor_mac(TABLE, &mut cache, "pc", "192.0.2.10"), Some(NEIGHBOR));
    assert_eq!(cached_mac(&cache, "pc", "192.0.2.10"), Some(NEIGHBOR));
    assert_eq!(cached_mac(&cache, "pc", "192.0.2.55"), Some(NEIGHBOR));
    assert_eq!(cached_mac(&cache, "other", "192.0.2.55"), Some(CONFIGURED));
    remember(&mut cache, "192.0.2.10", "junk");
    assert_eq!(cached_mac(&cache, "pc", "192.0.2.10"), None);
}

#[test]
fn the_sources_are_asked_in_turn() {
    let mut cache: Vec<(String, String)> = vec![];
    let mac = resolve_mac("pc", "192.0.2.10", Some("01-01-01-01-01-01"), Some(TABLE), &mut cache);
    assert_eq!((mac, cache.len()), (Some(CONFIGURED), 0));
    let mac = resolve_mac("pc", "192.0.2.10", None, None, &mut cache);
    assert_eq!((mac, cache.len()), (None, 0));
    let mac = resolve_mac("pc", "192.0.2.10", Some("junk"), Some(TABLE), &mut cache);
    assert_eq!((mac, cache.len()), (Some(NEIGHBOR), 2));
    let mac = resolve_mac("pc", "192.0.2.10", None, None, &mut cache);
    assert_eq!(mac, Some(NEIGHBOR));
}

#[test]
fn outcomes_are_replied_as_json() {
    for (host, ip, mac, sent, want, reply) in [
        ("", None, None, true, WolOutcome::NoHost, "{\"reason\":\"no-host\",\"status\":\"error\"}"),
        ("pc", None, None, true, WolOutcome::NoIp, "{\"reason\":\"no-ip\",\"status\":\"error\"}"),
        ("pc", Some("1.2.3.4"), None, true, WolOutcome::NoMac, "{\"reason\":\"no-mac\",\"status\":\"error\"}"),
        (
            "pc",
            Some("1.2.3.4"),
            Some(CACHED),
            false,
            WolOutcome::SendFailed,
            "{\"reason\":\"send-failed\",\"status\":\"error\"}",
        ),
        (
            "pc",
            Some("1.2.3.4"),
            Some(CACHED),
            true,
            WolOutcome::Sent(CACHED),
            "{\"mac\":\"03:03:03:03:03:03\",\"status\":\"ok\"}",
        ),
    ] {
        let outcome = wol_outcome(host, ip, mac, sent);
        assert_eq!(outcome, want);
        assert_eq!(handle_wol(outcome), reply);
    }
}

#[test]
fn only_the_active_host_is_woken_unasked() {
    assert_eq!(wake_target(true, Some("http://pc:47995")).as_deref(), Some("pc"));
    assert_eq!(wake_target(false, Some("http://pc:47995")), None);
    assert_eq!(wake_target(true, None), None);
    assert_eq!(wake_target(true, Some("http://")), None);
    assert_eq!(url_host("http://[::1]:8080/x").as_deref(), Some("::1"));
}

#[test]
fn a_canonical_address_reads_back() {
    for mac in [CONFIGURED, Mac([0, 255, 16, 15, 160, 1])] {
        assert_eq!(Mac::parse(&mac.to_canonical()), Some(mac));
    }
}

#[test]
fn a_cache_survives_its_file() {
    let mut cache: Vec<(String, String)> = vec![];
    for (k, v) in [("pc", "a"), ("192.0.2.1", "b\"\n"), ("pc", "c"), ("é", "")] {
        remember(&mut cache, k, v);
    }
    let text = write_cache(&cache);
    assert_eq!(text, "{\"192.0.2.1\":\"b\\\"\\n\",\"pc\":\"c\",\"é\":\"\"}");
    let mut read = read_cache(&text);
    read.sort();
    cache.sort();
    assert_eq!(read, cache);
    let twice = vec![
        ("k".to_string(), "first".to_string()),
        ("k".to_string(), "second".to_string()),
    ];
    assert_eq!(write_cache(&twice), "{\"k\":\"first\"}");
    for junk in ["", "[]", "{\"a\":1}", "{\"a\":\"b\""] {
        assert!(read_cache(junk).is_empty(), "{junk}");
    }
}

#[test]
fn a_sign_is_no_digit_of_a_mac() {
    assert_eq!(Mac::parse("+a:bb:cc:dd:ee:ff"), None);
    assert_eq!(Mac::parse("-a-bb-cc-dd-ee-ff"), None);
    assert_eq!(Mac::parse("aa:bb:cc:dd:ee:+f"), None);
    assert_eq!(Mac::parse("a:b:c:d:e:f"), Some(Mac([10, 11, 12, 13, 14, 15])));
    assert_eq!(Mac::parse("aa:bb:cc:dd:ee:100"), None);
}

#[test]
fn the_cache_keeps_every_key() {
    for key in [
        "$serde_json::private::RawValue",
        "$serde_json::private::Number",
        "",
    ] {
        let cache = vec![(key.to_string(), "aa:bb:cc:dd:ee:ff".to_string())];
        assert_eq!(read_cache(&write_cache(&cache)), cache);
    }
}

#[test]
fn later_sources_are_asked_only_where_they_are_needed() {
    let mac = Mac([1, 2, 3, 4, 5, 6]);
    let asked = |configured: Option<&str>, seen: Option<Mac>| {
        let mut order = Vec::new();
        let log = std::cell::RefCell::new(&mut order);
        let got = pick_mac(
            configured,
            || {
                log.borrow_mut().push("table");
                seen
            },
            || {
                log.borrow_mut().push("cache");
                Some(mac)
            },
        );
        drop(log);
        (got, order)
    };
    assert_eq!(
        asked(Some("0a:00:00:00:00:00"), None),
        (Some(Mac([10, 0, 0, 0, 0, 0])), vec![])
    );
    assert_eq!(
        asked(None, Some(Mac([7, 0, 0, 0, 0, 0]))),
        (Some(Mac([7, 0, 0, 0, 0, 0])), vec!["table"])
    );
    assert_eq!(
        asked(Some("junk"), None),
        (Some(mac), vec!["table", "cache"])
    );
}
