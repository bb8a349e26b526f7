use tv_shell::net_addr::{parse_ip, parse_socket, Ip};

fn v6(groups: [u16; 8]) -> Option<Ip> {
    Some(Ip::V6(groups.to_vec()))
}

#[test]
fn addresses_of_version_four() {
    assert_eq!(parse_ip("127.0.0.1"), Some(Ip::V4(127, 0, 0, 1)));
    assert_eq!(parse_ip("255.255.255.255"), Some(Ip::V4(255, 255, 255, 255)));
    for s in ["", "1", "1.2.3", "1.2.3.4.5", "256.0.0.1", "01.2.3.4", "1.2.3.", "+1.2.3.4", " 1.2.3.4", "a.b.c.d", "1.2.3.4 "] {
        assert_eq!(parse_ip(s), None, "{s:?}");
    }
}

#[test]
fn addresses_of_version_six() {
    assert_eq!(parse_ip("::"), v6([0; 8]));
    assert_eq!(parse_ip("::1"), v6([0, 0, 0, 0, 0, 0, 0, 1]));
    assert_eq!(parse_ip("1::"), v6([1, 0, 0, 0, 0, 0, 0, 0]));
    assert_eq!(parse_ip("2001:db8::8:800:200c:417a"), v6([0x2001, 0xdb8, 0, 0, 8, 0x800, 0x200c, 0x417a]));
    assert_eq!(parse_ip("1:2:3:4:5:6:7:8"), v6([1, 2, 3, 4, 5, 6, 7, 8]));
    assert_eq!(parse_ip("FFFF::"), v6([0xffff, 0, 0, 0, 0, 0, 0, 0]));
    assert_eq!(parse_ip("::ffff:192.0.2.128"), v6([0, 0, 0, 0, 0, 0xffff, 0xc000, 0x280]));
    assert_eq!(parse_ip("1:2:3:4:5:6:1.2.3.4"), v6([1, 2, 3, 4, 5, 6, 0x102, 0x304]));
    for s in [
        ":", ":::", "1:2:3:4:5:6:7", "1:2:3:4:5:6:7:8:9", "1::2::3", "12345::", "g::", "::1%1",
        "[::1]", "1.2.3.4::", "1:2:3:4:5:6:7::8:9", ":1::",
    ] {
        assert_eq!(parse_ip(s), None, "{s:?}");
    }
}

#[test]
fn loopback_addresses() {
    for (s, want) in [
        ("127.0.0.1", true),
        ("127.255.255.255", true),
        ("128.0.0.1", false),
        ("::1", true),
        ("::", false),
        ("::2", false),
        ("::ffff:127.0.0.1", false),
    ] {
        assert_eq!(parse_ip(s).unwrap().loopback(), want, "{s}");
    }
}

#[test]
fn addresses_with_a_port_are_shown_in_their_shortest_form() {
    for (written, shown) in [
        ("127.0.0.1:8091", "127.0.0.1:8091"),
        ("0.0.0.0:0", "0.0.0.0:0"),
        ("[::1]:80", "[::1]:80"),
        ("[0:0:0:0:0:0:0:0]:65535", "[::]:65535"),
        ("[1:0:0:2:0:0:0:3]:1", "[1:0:0:2::3]:1"),
        ("[1:0:2:0:3:0:4:0]:1", "[1:0:2:0:3:0:4:0]:1"),
        ("[1:0:0:2:3:0:0:4]:1", "[1::2:3:0:0:4]:1"),
        ("[::ffff:1.2.3.4]:1", "[::ffff:1.2.3.4]:1"),
        ("[FE80::1%3]:443", "[fe80::1%3]:443"),
        ("[fe80::1%0]:443", "[fe80::1]:443"),
    ] {
        assert_eq!(parse_socket(written).expect(written).to_text(), shown);
    }
}

#[test]
fn addresses_without_a_proper_port_are_refused() {
    for s in [
        "", "127.0.0.1", "127.0.0.1:", "127.0.0.1:65536", ":80", "localhost:80", "::1:80x",
        "[::1]", "[::1]80", "[::1:80", "[127.0.0.1]:80", "not-an-addr",
    ] {
        assert_eq!(parse_socket(s), None, "{s:?}");
    }
}
