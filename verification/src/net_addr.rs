//! Addresses of the Internet protocols as they are written.

use crate::text;
use vstd::prelude::*;

verus! {

/// An address.
#[derive(Debug, Clone, PartialEq, Eq)]
pub enum Ip {
    /// Four bytes.
    V4(u8, u8, u8, u8),
    /// Eight groups.
    V6(Vec<u16>),
}

/// An address.
pub enum IpView {
    V4(u8, u8, u8, u8),
    V6(Seq<u16>),
}

impl View for Ip {
    type V = IpView;

    open spec fn view(&self) -> IpView {
        match *self {
            Ip::V4(a, b, c, d) => IpView::V4(a, b, c, d),
            Ip::V6(groups) => IpView::V6(groups@),
        }
    }
}

// ---------------------------------------------------------------------------
// Reading
// ---------------------------------------------------------------------------

/// The number that some digits write, without a sign.
pub open spec fn plain_number(s: Seq<char>, radix: nat, max_len: nat, max: nat) -> Option<nat> {
    if 0 < s.len() <= max_len && text::all_digits(s, radix) && text::digits_value(s, radix) <= max {
        Some(text::digits_value(s, radix))
    } else {
        None
    }
}

/// The number that some digits write, without a sign.
fn number(s: &str, radix: u64, max_len: usize, max: u64) -> (r: Option<u64>)
    requires
        2 <= radix <= 16,
    ensures
        r is Some <==> plain_number(s@, radix as nat, max_len as nat, max as nat) is Some,
        r matches Some(n) ==> plain_number(s@, radix as nat, max_len as nat, max as nat) == Some(
            n as nat,
        ),
{
    let v = text::chars_of(s);
    if v.len() > max_len || (v.len() > 0 && v[0] == '+') {
        return None;
    }
    text::parse_uint(s, radix, max)
}

/// A byte in decimal; it has no zero in front.
pub open spec fn octet(s: Seq<char>) -> Option<nat> {
    if s.len() > 1 && s[0] == '0' {
        None
    } else {
        plain_number(s, 10, 3, 255)
    }
}

fn read_octet(s: &str) -> (r: Option<u8>)
    ensures
        r is Some <==> octet(s@) is Some,
        r matches Some(n) ==> octet(s@) == Some(n as nat),
{
    let v = text::chars_of(s);
    if v.len() > 1 && v[0] == '0' {
        return None;
    }
    match number(s, 10, 3, 255) {
        Some(n) => Some(n as u8),
        None => None,
    }
}

/// An address of version 4: four bytes between dots.
pub open spec fn v4_of(s: Seq<char>) -> Option<(u8, u8, u8, u8)> {
    let p = text::split_on(s, '.');
    if p.len() == 4 && octet(p[0]) is Some && octet(p[1]) is Some && octet(p[2]) is Some && octet(
        p[3],
    ) is Some {
        Some(
            (
                octet(p[0])->Some_0 as u8,
                octet(p[1])->Some_0 as u8,
                octet(p[2])->Some_0 as u8,
                octet(p[3])->Some_0 as u8,
            ),
        )
    } else {
        None
    }
}

fn read_v4(s: &str) -> (r: Option<(u8, u8, u8, u8)>)
    ensures
        r == v4_of(s@),
{
    let p = text::split_char(s, '.');
    if p.len() != 4 {
        return None;
    }
    match (
        read_octet(p[0].as_str()),
        read_octet(p[1].as_str()),
        read_octet(p[2].as_str()),
        read_octet(p[3].as_str()),
    ) {
        (Some(a), Some(b), Some(c), Some(d)) => Some((a, b, c, d)),
        _ => None,
    }
}

/// A group of an address of version 6.
pub open spec fn group(s: Seq<char>) -> Option<nat> {
    plain_number(s, 16, 4, 0xffff)
}

/// Two bytes as one group.
pub open spec fn pair_group(high: u8, low: u8) -> u16 {
    (high * 256 + low) as u16
}

/// The groups that some parts write. Where `tail` holds, the last part may be an
/// address of version 4, which stands for two groups.
pub open spec fn groups_of(parts: Seq<Seq<char>>, tail: bool) -> Option<Seq<u16>>
    decreases parts.len(),
{
    if parts.len() == 0 {
        Some(Seq::empty())
    } else {
        match groups_of(parts.drop_last(), false) {
            None => None,
            Some(before) => match group(parts.last()) {
                Some(n) => Some(before.push(n as u16)),
                None => match v4_of(parts.last()) {
                    Some((a, b, c, d)) => if tail {
                        Some(before.push(pair_group(a, b)).push(pair_group(c, d)))
                    } else {
                        None
                    },
                    None => None,
                },
            },
        }
    }
}

/// The groups of a side of an address.
pub open spec fn side_of(s: Seq<char>, tail: bool) -> Option<Seq<u16>> {
    if s.len() == 0 {
        Some(Seq::empty())
    } else {
        groups_of(text::split_on(s, ':'), tail)
    }
}

/// Where two colons stand first, or the length.
pub open spec fn gap(s: Seq<char>) -> int
    decreases s.len(),
{
    if s.len() < 2 {
        s.len() as int
    } else if s[0] == ':' && s[1] == ':' {
        0
    } else {
        1 + gap(s.skip(1))
    }
}

/// So many groups of zero.
pub open spec fn zeros(n: int) -> Seq<u16> {
    Seq::new(n as nat, |i: int| 0u16)
}

/// An address of version 6: eight groups between colons. Two colons stand, once,
/// for the groups of zero that are left out, one at least. The last two groups may
/// be written as an address of version 4.
pub open spec fn v6_of(s: Seq<char>) -> Option<Seq<u16>> {
    let i = gap(s);
    if i == s.len() {
        match side_of(s, true) {
            Some(g) => if g.len() == 8 {
                Some(g)
            } else {
                None
            },
            None => None,
        }
    } else {
        match (side_of(s.take(i), false), side_of(s.skip(i + 2), true)) {
            (Some(left), Some(right)) => if left.len() + right.len() <= 7 {
                Some(left + zeros(8 - left.len() - right.len()) + right)
            } else {
                None
            },
            _ => None,
        }
    }
}

/// An address of either version.
pub open spec fn ip_of(s: Seq<char>) -> Option<IpView> {
    match v4_of(s) {
        Some((a, b, c, d)) => Some(IpView::V4(a, b, c, d)),
        None => match v6_of(s) {
            Some(g) => Some(IpView::V6(g)),
            None => None,
        },
    }
}

fn read_groups(parts: &Vec<String>, tail: bool) -> (r: Option<Vec<u16>>)
    ensures
        r is Some <==> groups_of(text::views(parts@), tail) is Some,
        r matches Some(g) ==> groups_of(text::views(parts@), tail) == Some(g@),
{
    let ghost all = text::views(parts@);
    let mut out: Vec<u16> = Vec::new();
    let mut i: usize = 0;
    assert(all.take(0) =~= Seq::empty());
    while i < parts.len()
        invariant
            i <= parts.len(),
            all == text::views(parts@),
            groups_of(all.take(i as int), false) == Some(out@),
        decreases parts.len() - i,
    {
        let ghost next = all.take(i + 1);
        assert(next.drop_last() =~= all.take(i as int));
        assert(next.last() == parts@[i as int]@);
        match number(parts[i].as_str(), 16, 4, 0xffff) {
            Some(n) => {
                out.push(n as u16);
            },
            None => {
                if tail && i + 1 == parts.len() {
                    assert(next =~= all);
                    match read_v4(parts[i].as_str()) {
                        Some((a, b, c, d)) => {
                            out.push(a as u16 * 256 + b as u16);
                            out.push(c as u16 * 256 + d as u16);
                            return Some(out);
                        },
                        None => {
                            return None;
                        },
                    }
                }
                proof {
                    if i + 1 < parts.len() {
                        lemma_bad_group(all, i as int, tail);
                    } else {
                        assert(next =~= all);
                    }
                }
                return None;
            },
        }
        i += 1;
    }
    assert(all.take(i as int) =~= all);
    proof {
        lemma_tail_unused(all);
    }
    Some(out)
}

/// A part that is no group and does not come last spoils the whole.
proof fn lemma_bad_group(parts: Seq<Seq<char>>, i: int, tail: bool)
    requires
        0 <= i < parts.len(),
        group(parts[i]) is None,
        i + 1 < parts.len() || !tail,
    ensures
        groups_of(parts, tail) is None,
    decreases parts.len(),
{
    if i + 1 < parts.len() {
        assert(parts.drop_last()[i] == parts[i]);
        lemma_bad_group(parts.drop_last(), i, false);
    }
}

/// Groups that need no address of version 4 are the same with one allowed.
proof fn lemma_tail_unused(parts: Seq<Seq<char>>)
    requires
        groups_of(parts, false) is Some,
    ensures
        groups_of(parts, true) == groups_of(parts, false),
{
}

fn read_side(s: &str, tail: bool) -> (r: Option<Vec<u16>>)
    ensures
        r is Some <==> side_of(s@, tail) is Some,
        r matches Some(g) ==> side_of(s@, tail) == Some(g@),
{
    if s.is_empty() {
        let r: Vec<u16> = Vec::new();
        assert(s@.len() == 0);
        assert(r@ =~= Seq::empty());
        return Some(r);
    }
    read_groups(&text::split_char(s, ':'), tail)
}

fn find_gap(v: &Vec<char>) -> (r: usize)
    ensures
        r == gap(v@),
        r <= v.len(),
        r < v.len() ==> r + 2 <= v.len(),
{
    let mut i: usize = 0;
    assert(v@.skip(0) =~= v@);
    while i < v.len() && !(v.len() - i >= 2 && v[i] == ':' && v[i + 1] == ':')
        invariant
            i <= v.len(),
            gap(v@) == i + gap(v@.skip(i as int)),
        decreases v.len() - i,
    {
        proof {
            let t = v@.skip(i as int);
            assert(t.skip(1) =~= v@.skip(i + 1));
            if t.len() < 2 {
                assert(t.len() == 1);
                assert(v@.skip(i + 1).len() == 0);
                assert(gap(v@.skip(i + 1)) == 0);
            }
        }
        i += 1;
    }
    i
}

fn read_v6(s: &str) -> (r: Option<Vec<u16>>)
    ensures
        r is Some <==> v6_of(s@) is Some,
        r matches Some(g) ==> v6_of(s@) == Some(g@) && g@.len() == 8,
{
    let v = text::chars_of(s);
    let i = find_gap(&v);
    if i == v.len() {
        match read_side(s, true) {
            Some(g) => if g.len() == 8 {
                Some(g)
            } else {
                None
            },
            None => None,
        }
    } else {
        let left = text::text_between(&v, 0, i);
        let right = text::text_between(&v, i + 2, v.len());
        assert(left@ =~= s@.take(i as int));
        assert(right@ =~= s@.skip(i + 2));
        match (read_side(left.as_str(), false), read_side(right.as_str(), true)) {
            (Some(l), Some(t)) => if l.len() <= 7 && t.len() <= 7 && l.len() + t.len() <= 7 {
                let ghost before = l@;
                let mut out = l;
                let mut more = t;
                let total: usize = out.len() + more.len();
                let mut n: usize = total;
                while n < 8
                    invariant
                        total <= n <= 8,
                        out@ == before + zeros(n - total),
                    decreases 8 - n,
                {
                    out.push(0);
                    n += 1;
                    assert(out@ =~= before + zeros(n - total));
                }
                out.append(&mut more);
                assert(out@ =~= before + zeros(8 - total) + t@);
                Some(out)
            } else {
                None
            },
            _ => None,
        }
    }
}

/// Reads an address.
pub fn parse_ip(s: &str) -> (r: Option<Ip>)
    ensures
        r is Some <==> ip_of(s@) is Some,
        r matches Some(ip) ==> ip_of(s@) == Some(ip@),
        r matches Some(Ip::V6(g)) ==> g@.len() == 8,
{
    match read_v4(s) {
        Some((a, b, c, d)) => Some(Ip::V4(a, b, c, d)),
        None => match read_v6(s) {
            Some(g) => Some(Ip::V6(g)),
            None => None,
        },
    }
}

/// Whether an address leads back to the same machine.
pub open spec fn is_loopback(ip: IpView) -> bool {
    match ip {
        IpView::V4(a, _, _, _) => a == 127,
        IpView::V6(g) => g == seq![0u16, 0, 0, 0, 0, 0, 0, 1],
    }
}

impl Ip {
    /// Whether the address leads back to the same machine.
    pub fn loopback(&self) -> (r: bool)
        ensures
            r == is_loopback(self@),
    {
        match self {
            Ip::V4(a, _, _, _) => *a == 127,
            Ip::V6(g) => {
                let r = g.len() == 8 && g[0] == 0 && g[1] == 0 && g[2] == 0 && g[3] == 0 && g[4]
                    == 0 && g[5] == 0 && g[6] == 0 && g[7] == 1;
                proof {
                    if r {
                        assert(g@ =~= seq![0u16, 0, 0, 0, 0, 0, 0, 1]);
                    } else if g@ == seq![0u16, 0, 0, 0, 0, 0, 0, 1] {
                        assert(false);
                    }
                }
                r
            },
        }
    }
}

// ---------------------------------------------------------------------------
// With a port
// ---------------------------------------------------------------------------

/// An address with a port.
#[derive(Debug, Clone, PartialEq, Eq)]
pub struct SocketAddress {
    pub ip: Ip,
    /// The scope of an address of version 6; zero if there is none.
    pub scope: u32,
    pub port: u16,
}

/// An address with a port.
pub struct SocketView {
    pub ip: IpView,
    pub scope: u32,
    pub port: u16,
}

impl View for SocketAddress {
    type V = SocketView;

    open spec fn view(&self) -> SocketView {
        SocketView { ip: self.ip@, scope: self.scope, port: self.port }
    }
}

/// A number of any length, without a sign.
pub open spec fn long_number(s: Seq<char>, max: nat) -> Option<nat> {
    plain_number(s, 10, s.len(), max)
}

/// An address of version 6, which a scope may follow after a percent sign.
pub open spec fn scoped_of(s: Seq<char>) -> Option<(Seq<u16>, u32)> {
    match text::cut_at(s, '%') {
        Some((addr, scope)) => match (v6_of(addr), long_number(scope, u32::MAX as nat)) {
            (Some(g), Some(n)) => Some((g, n as u32)),
            _ => None,
        },
        None => match v6_of(s) {
            Some(g) => Some((g, 0)),
            None => None,
        },
    }
}

/// An address of version 4, a colon and a port.
pub open spec fn socket_v4_of(s: Seq<char>) -> Option<SocketView> {
    match text::cut_at(s, ':') {
        Some((addr, port)) => match (v4_of(addr), long_number(port, u16::MAX as nat)) {
            (Some((a, b, c, d)), Some(n)) => Some(
                SocketView { ip: IpView::V4(a, b, c, d), scope: 0, port: n as u16 },
            ),
            _ => None,
        },
        None => None,
    }
}

/// An address of version 6 between brackets, a colon and a port.
pub open spec fn socket_v6_of(s: Seq<char>) -> Option<SocketView> {
    if s.len() == 0 || s[0] != '[' {
        None
    } else {
        match text::cut_at(s.skip(1), ']') {
            Some((addr, rest)) => if rest.len() == 0 || rest[0] != ':' {
                None
            } else {
                match (scoped_of(addr), long_number(rest.skip(1), u16::MAX as nat)) {
                    (Some((g, scope)), Some(n)) => Some(
                        SocketView { ip: IpView::V6(g), scope, port: n as u16 },
                    ),
                    _ => None,
                }
            },
            None => None,
        }
    }
}

/// An address with a port, as it is written.
pub open spec fn socket_of(s: Seq<char>) -> Option<SocketView> {
    match socket_v4_of(s) {
        Some(a) => Some(a),
        None => socket_v6_of(s),
    }
}

fn read_long(s: &str, max: u64) -> (r: Option<u64>)
    ensures
        r is Some <==> long_number(s@, max as nat) is Some,
        r matches Some(n) ==> long_number(s@, max as nat) == Some(n as nat),
{
    let v = text::chars_of(s);
    number(s, 10, v.len(), max)
}

fn read_scoped(s: &str) -> (r: Option<(Vec<u16>, u32)>)
    ensures
        r is Some <==> scoped_of(s@) is Some,
        r matches Some((g, scope)) ==> scoped_of(s@) == Some((g@, scope)) && g@.len() == 8,
{
    match text::split_once(s, '%') {
        Some((addr, scope)) => match (read_v6(addr.as_str()), read_long(
            scope.as_str(),
            u32::MAX as u64,
        )) {
            (Some(g), Some(n)) => Some((g, n as u32)),
            _ => None,
        },
        None => match read_v6(s) {
            Some(g) => Some((g, 0)),
            None => None,
        },
    }
}

fn read_socket_v4(s: &str) -> (r: Option<SocketAddress>)
    ensures
        r is Some <==> socket_v4_of(s@) is Some,
        r matches Some(a) ==> socket_v4_of(s@) == Some(a@) && a.ip is V4,
{
    match text::split_once(s, ':') {
        Some((addr, port)) => match (read_v4(addr.as_str()), read_long(
            port.as_str(),
            u16::MAX as u64,
        )) {
            (Some((a, b, c, d)), Some(n)) => Some(
                SocketAddress { ip: Ip::V4(a, b, c, d), scope: 0, port: n as u16 },
            ),
            _ => None,
        },
        None => None,
    }
}

fn read_socket_v6(s: &str) -> (r: Option<SocketAddress>)
    ensures
        r is Some <==> socket_v6_of(s@) is Some,
        r matches Some(a) ==> socket_v6_of(s@) == Some(a@) && (a.ip matches Ip::V6(g) && g@.len()
            == 8),
{
    let v = text::chars_of(s);
    if v.len() == 0 || v[0] != '[' {
        return None;
    }
    let inside = text::text_between(&v, 1, v.len());
    assert(inside@ =~= s@.skip(1));
    match text::split_once(inside.as_str(), ']') {
        Some((addr, rest)) => {
            let t = text::chars_of(rest.as_str());
            if t.len() == 0 || t[0] != ':' {
                return None;
            }
            let port = text::text_between(&t, 1, t.len());
            assert(port@ =~= rest@.skip(1));
            match (read_scoped(addr.as_str()), read_long(port.as_str(), u16::MAX as u64)) {
                (Some((g, scope)), Some(n)) => Some(
                    SocketAddress { ip: Ip::V6(g), scope, port: n as u16 },
                ),
                _ => None,
            }
        },
        None => None,
    }
}

/// Reads an address with a port.
pub fn parse_socket(s: &str) -> (r: Option<SocketAddress>)
    ensures
        r is Some <==> socket_of(s@) is Some,
        r matches Some(a) ==> socket_of(s@) == Some(a@) && a.wf(),
{
    match read_socket_v4(s) {
        Some(a) => Some(a),
        None => read_socket_v6(s),
    }
}

// ---------------------------------------------------------------------------
// Writing
// ---------------------------------------------------------------------------

/// A number in hexadecimal, lower case.
pub open spec fn hexed(n: nat) -> Seq<char>
    decreases n,
{
    if n < 16 {
        seq![text::digit_char(n as int)]
    } else {
        hexed(n / 16).push(text::digit_char((n % 16) as int))
    }
}

fn hexadecimal(n: u16) -> (r: String)
    ensures
        r@ == hexed(n as nat),
    decreases n,
{
    let mut out = if n < 16 {
        String::new()
    } else {
        hexadecimal(n / 16)
    };
    out.push(text::digit_of((n % 16) as u8));
    assert(n < 16 ==> out@ =~= seq![text::digit_char(n as int)]);
    out
}

/// How many groups from `i` on are zero.
pub open spec fn run_at(g: Seq<u16>, i: int) -> int
    decreases g.len() - i,
{
    if i < 0 || i >= g.len() || g[i] != 0 {
        0
    } else {
        1 + run_at(g, i + 1)
    }
}

/// The first of the longest runs of zeros that start before `n`: where it starts
/// and how long it is.
pub open spec fn longest_run(g: Seq<u16>, n: int) -> (int, int)
    decreases n,
{
    if n <= 0 {
        (0, 0)
    } else {
        let before = longest_run(g, n - 1);
        if run_at(g, n - 1) > before.1 {
            (n - 1, run_at(g, n - 1))
        } else {
            before
        }
    }
}

/// Groups between colons.
pub open spec fn groups_text(g: Seq<u16>) -> Seq<char> {
    text::joined(Seq::new(g.len(), |i: int| hexed(g[i] as nat)), ":"@)
}

/// Four bytes between dots.
pub open spec fn v4_text(a: u8, b: u8, c: u8, d: u8) -> Seq<char> {
    text::dec(a as nat) + "."@ + text::dec(b as nat) + "."@ + text::dec(c as nat) + "."@ + text::dec(
        d as nat,
    )
}

/// Eight groups: those of an address of version 4 in the clothes of version 6 end
/// in its bytes, and otherwise the longest run of two zeros or more is left out.
pub open spec fn v6_text(g: Seq<u16>) -> Seq<char> {
    if run_at(g, 0) == 5 && g[5] == 0xffff {
        "::ffff:"@ + v4_text(
            (g[6] / 256) as u8,
            (g[6] % 256) as u8,
            (g[7] / 256) as u8,
            (g[7] % 256) as u8,
        )
    } else {
        let (start, len) = longest_run(g, g.len() as int);
        if len > 1 {
            groups_text(g.take(start)) + "::"@ + groups_text(g.skip(start + len))
        } else {
            groups_text(g)
        }
    }
}

/// An address with a port, as it is shown.
pub open spec fn socket_text(a: SocketView) -> Seq<char> {
    match a.ip {
        IpView::V4(x, y, z, w) => v4_text(x, y, z, w) + ":"@ + text::dec(a.port as nat),
        IpView::V6(g) => if a.scope == 0 {
            "["@ + v6_text(g) + "]:"@ + text::dec(a.port as nat)
        } else {
            "["@ + v6_text(g) + "%"@ + text::dec(a.scope as nat) + "]:"@ + text::dec(a.port as nat)
        },
    }
}

/// Four bytes between dots.
pub fn v4_shown(a: u8, b: u8, c: u8, d: u8) -> (r: String)
    ensures
        r@ == v4_text(a, b, c, d),
{
    let mut out = text::decimal(a as u64);
    out.push_str(".");
    out.push_str(text::decimal(b as u64).as_str());
    out.push_str(".");
    out.push_str(text::decimal(c as u64).as_str());
    out.push_str(".");
    out.push_str(text::decimal(d as u64).as_str());
    out
}

fn zero_run(g: &Vec<u16>, at: usize) -> (r: usize)
    requires
        at <= g.len(),
    ensures
        r == run_at(g@, at as int),
        at + r <= g.len(),
{
    let mut i: usize = at;
    while i < g.len() && g[i] == 0
        invariant
            at <= i <= g.len(),
            run_at(g@, at as int) == i - at + run_at(g@, i as int),
        decreases g.len() - i,
    {
        i += 1;
    }
    i - at
}

fn groups_shown(g: &Vec<u16>, from: usize, to: usize) -> (r: String)
    requires
        from <= to <= g.len(),
    ensures
        r@ == groups_text(g@.subrange(from as int, to as int)),
{
    let mut parts: Vec<String> = Vec::new();
    let mut i: usize = from;
    while i < to
        invariant
            from <= i <= to <= g.len(),
            parts@.len() == i - from,
            forall|k: int| 0 <= k < i - from ==> (#[trigger] parts@[k])@ == hexed(g@[from + k] as nat),
        decreases to - i,
    {
        parts.push(hexadecimal(g[i]));
        i += 1;
    }
    assert(text::views(parts@) =~= Seq::new(
        (to - from) as nat,
        |k: int| hexed(g@.subrange(from as int, to as int)[k] as nat),
    ));
    text::join(&parts, ":")
}

fn v6_shown(g: &Vec<u16>) -> (r: String)
    requires
        g.len() == 8,
    ensures
        r@ == v6_text(g@),
{
    if zero_run(g, 0) == 5 && g[5] == 0xffff {
        let mut out = "::ffff:".to_owned();
        out.push_str(
            v4_shown(
                (g[6] / 256) as u8,
                (g[6] % 256) as u8,
                (g[7] / 256) as u8,
                (g[7] % 256) as u8,
            ).as_str(),
        );
        return out;
    }
    let mut start: usize = 0;
    let mut len: usize = 0;
    let mut i: usize = 0;
    while i < 8
        invariant
            i <= 8,
            g.len() == 8,
            longest_run(g@, i as int) == (start as int, len as int),
            start + len <= 8,
        decreases 8 - i,
    {
        let run = zero_run(g, i);
        if run > len {
            start = i;
            len = run;
        }
        i += 1;
    }
    if len > 1 {
        let mut out = groups_shown(g, 0, start);
        out.push_str("::");
        out.push_str(groups_shown(g, start + len, 8).as_str());
        assert(g@.subrange(0, start as int) =~= g@.take(start as int));
        assert(g@.subrange((start + len) as int, 8) =~= g@.skip((start + len) as int));
        out
    } else {
        assert(g@.subrange(0, 8) =~= g@);
        groups_shown(g, 0, 8)
    }
}

impl SocketAddress {
    /// Whether an address of version 6 has eight groups.
    pub open spec fn wf(&self) -> bool {
        match self.ip {
            Ip::V4(_, _, _, _) => true,
            Ip::V6(g) => g@.len() == 8,
        }
    }

    /// The address as it is shown.
    pub fn to_text(&self) -> (r: String)
        requires
            self.wf(),
        ensures
            r@ == socket_text(self@),
    {
        match &self.ip {
            Ip::V4(a, b, c, d) => {
                let mut out = v4_shown(*a, *b, *c, *d);
                out.push_str(":");
                out.push_str(text::decimal(self.port as u64).as_str());
                out
            },
            Ip::V6(g) => {
                let mut out = "[".to_owned();
                out.push_str(v6_shown(g).as_str());
                if self.scope != 0 {
                    out.push_str("%");
                    out.push_str(text::decimal(self.scope as u64).as_str());
                }
                out.push_str("]:");
                out.push_str(text::decimal(self.port as u64).as_str());
                out
            },
        }
    }
}

// ---------------------------------------------------------------------------
// Laws
// ---------------------------------------------------------------------------

proof fn lemma_octet(n: u8)
    ensures
        octet(text::dec(n as nat)) == Some(n as nat),
        !text::dec(n as nat).contains('.'),
        !text::dec(n as nat).contains(':'),
{
    text::lemma_dec(n as nat);
    text::lemma_dec_plain(n as nat, '.');
    text::lemma_dec_plain(n as nat, ':');
    reveal_with_fuel(text::dec, 4);
    let s = text::dec(n as nat);
    assert(s.len() <= 3);
    if s.len() > 1 {
        assert(n >= 10);
        if n < 100 {
            assert(s[0] == text::digit_char(n as int / 10));
        } else {
            assert(s[0] == text::digit_char(n as int / 100));
        }
        assert(s[0] != '0');
    }
}

/// An address of version 4 that is written is read as it was.
pub proof fn law_v4_reads_back(a: u8, b: u8, c: u8, d: u8)
    ensures
        v4_of(v4_text(a, b, c, d)) == Some((a, b, c, d)),
        ip_of(v4_text(a, b, c, d)) == Some(IpView::V4(a, b, c, d)),
        !v4_text(a, b, c, d).contains(':'),
{
    reveal_strlit(".");
    assert("."@ =~= seq!['.']);
    lemma_octet(a);
    lemma_octet(b);
    lemma_octet(c);
    lemma_octet(d);
    let parts = seq![
        text::dec(a as nat),
        text::dec(b as nat),
        text::dec(c as nat),
        text::dec(d as nat),
    ];
    let dot = seq!['.'];
    let p3 = parts.drop_last();
    let p2 = p3.drop_last();
    let p1 = p2.drop_last();
    assert(text::joined(p1, dot) == parts[0]);
    assert(text::joined(p2, dot) == parts[0] + dot + parts[1]);
    assert(text::joined(p3, dot) == parts[0] + dot + parts[1] + dot + parts[2]);
    assert(text::joined(parts, dot) == v4_text(a, b, c, d));
    text::lemma_split_joined(parts, '.');
    let s = v4_text(a, b, c, d);
    if s.contains(':') {
        let i = choose|i: int| 0 <= i < s.len() && s[i] == ':';
        let l0 = parts[0].len();
        let l1 = l0 + 1 + parts[1].len();
        let l2 = l1 + 1 + parts[2].len();
        if i < l0 {
            assert(parts[0][i] == ':');
        } else if l0 < i < l1 {
            assert(parts[1][i - l0 - 1] == ':');
        } else if l1 < i < l2 {
            assert(parts[2][i - l1 - 1] == ':');
        } else if l2 < i {
            assert(parts[3][i - l2 - 1] == ':');
        }
    }
}

/// A byte has no zero in front, no sign and no more than its value.
pub proof fn law_bytes_are_plain(s: Seq<char>)
    ensures
        octet(s) matches Some(n) ==> n <= 255 && n == text::digits_value(s, 10) && text::all_digits(
            s,
            10,
        ) && 1 <= s.len() <= 3 && (s.len() > 1 ==> s[0] != '0'),
        1 <= s.len() <= 3 && text::all_digits(s, 10) && text::digits_value(s, 10) <= 255 && (s.len()
            > 1 ==> s[0] != '0') ==> octet(s) is Some,
{
}

/// The machine itself is all of 127 in version 4 and the one of zeros up to a last group of
/// one in version 6, and nothing else.
pub proof fn law_loopback_is_the_machine_itself(ip: IpView)
    ensures
        ip matches IpView::V4(a, b, c, d) ==> (is_loopback(ip) <==> a == 127),
        ip matches IpView::V6(g) ==> (is_loopback(ip) <==> g.len() == 8 && g[7] == 1 && forall|
            i: int,
        | 0 <= i < 7 ==> #[trigger] g[i] == 0),
{
    if let IpView::V6(g) = ip {
        if g.len() == 8 && g[7] == 1 && forall|i: int| 0 <= i < 7 ==> #[trigger] g[i] == 0 {
            assert(g =~= seq![0u16, 0, 0, 0, 0, 0, 0, 1]);
        }
    }
}

proof fn lemma_hexed(n: nat)
    requires
        n <= 0xffff,
    ensures
        group(hexed(n)) == Some(n),
        hexed(n).len() > 0,
        !hexed(n).contains(':'),
        !hexed(n).contains('%'),
        !hexed(n).contains(']'),
{
    lemma_hex_digits(n);
    reveal_with_fuel(hexed, 5);
    let s = hexed(n);
    assert(s.len() <= 4);
    if s.contains(':') || s.contains('%') || s.contains(']') {
        let i = choose|i: int| 0 <= i < s.len() && (s[i] == ':' || s[i] == '%' || s[i] == ']');
        assert(text::digit_value(s[i], 16) < 16);
    }
}

proof fn lemma_hex_digits(n: nat)
    ensures
        text::all_digits(hexed(n), 16),
        text::digits_value(hexed(n), 16) == n,
        hexed(n).len() > 0,
    decreases n,
{
    let s = hexed(n);
    if n < 16 {
        assert(s.drop_last() =~= Seq::empty());
        assert(text::digits_value(s.drop_last(), 16) == 0);
        assert(text::digit_value(s[0], 16) == n);
    } else {
        lemma_hex_digits(n / 16);
        assert(s.drop_last() =~= hexed(n / 16));
        assert(text::digit_value(s.last(), 16) == n % 16);
        assert forall|i: int| 0 <= i < s.len() implies text::digit_value(#[trigger] s[i], 16) < 16 by {
            if i < s.len() - 1 {
                assert(s[i] == hexed(n / 16)[i]);
            }
        }
    }
}

spec fn written(g: Seq<u16>) -> Seq<Seq<char>> {
    Seq::new(g.len(), |i: int| hexed(g[i] as nat))
}

proof fn lemma_groups_back(g: Seq<u16>, tail: bool)
    ensures
        groups_of(written(g), tail) == Some(g),
    decreases g.len(),
{
    if g.len() > 0 {
        let rest = g.drop_last();
        lemma_groups_back(rest, false);
        assert(written(g).drop_last() =~= written(rest));
        lemma_hexed(g.last() as nat);
        assert(rest.push(g.last()) =~= g);
    } else {
        assert(g =~= Seq::empty());
    }
}

/// Whether no two colons stand together, and none first or last.
spec fn no_gap(s: Seq<char>) -> bool {
    &&& s.len() > 0
    &&& s[0] != ':'
    &&& s.last() != ':'
    &&& forall|i: int| 0 <= i < s.len() - 1 ==> !(#[trigger] s[i] == ':' && s[i + 1] == ':')
}

proof fn lemma_no_gap(parts: Seq<Seq<char>>)
    requires
        parts.len() > 0,
        forall|i: int| 0 <= i < parts.len() ==> (#[trigger] parts[i]).len() > 0 && !parts[i].contains(':'),
    ensures
        no_gap(text::joined(parts, seq![':'])),
    decreases parts.len(),
{
    let colon = seq![':'];
    let s = text::joined(parts, colon);
    let last = parts.last();
    assert(parts[parts.len() - 1].len() > 0 && !parts[parts.len() - 1].contains(':'));
    assert forall|i: int| 0 <= i < last.len() implies #[trigger] last[i] != ':' by {
        assert(last.contains(last[i]));
    }
    if parts.len() > 1 {
        let rest = parts.drop_last();
        assert forall|i: int| 0 <= i < rest.len() implies (#[trigger] rest[i]).len() > 0
            && !rest[i].contains(':') by {
            assert(rest[i] == parts[i]);
        }
        lemma_no_gap(rest);
        let f = text::joined(rest, colon);
        assert(s == f + colon + last);
        assert forall|i: int| 0 <= i < s.len() - 1 implies !(#[trigger] s[i] == ':' && s[i + 1]
            == ':') by {
            if i < f.len() - 1 {
                assert(s[i] == f[i] && s[i + 1] == f[i + 1]);
            } else if i == f.len() - 1 {
                assert(s[i] == f.last());
            } else if i >= f.len() {
                assert(s[i + 1] == last[i - f.len()]);
            }
        }
        assert(s.last() == last[last.len() - 1]);
    }
}

proof fn lemma_gap(s: Seq<char>, n: int)
    requires
        0 <= n <= s.len(),
        n < s.len() ==> n + 1 < s.len() && s[n] == ':' && s[n + 1] == ':',
        forall|i: int|
            0 <= i < n && i + 1 < s.len() ==> !(#[trigger] s[i] == ':' && s[i + 1] == ':'),
    ensures
        gap(s) == n,
    decreases n,
{
    if n > 0 {
        if s.len() >= 2 {
            assert(!(s[0] == ':' && s[1] == ':'));
            let t = s.skip(1);
            assert forall|i: int| 0 <= i < n - 1 && i + 1 < t.len() implies !(#[trigger] t[i] == ':'
                && t[i + 1] == ':') by {
                assert(t[i] == s[i + 1] && t[i + 1] == s[i + 2]);
            }
            lemma_gap(t, n - 1);
        }
    }
}

proof fn lemma_side_back(g: Seq<u16>, tail: bool)
    ensures
        side_of(groups_text(g), tail) == Some(g),
        g.len() > 0 ==> no_gap(groups_text(g)),
        g.len() == 0 ==> groups_text(g).len() == 0,
        !groups_text(g).contains('%'),
        !groups_text(g).contains(']'),
{
    reveal_strlit(":");
    assert(":"@ =~= seq![':']);
    let parts = written(g);
    assert(parts =~= Seq::new(g.len(), |i: int| hexed(g[i] as nat)));
    assert forall|i: int| 0 <= i < parts.len() implies (#[trigger] parts[i]).len() > 0
        && !parts[i].contains(':') && !parts[i].contains('%') && !parts[i].contains(']') by {
        lemma_hexed(g[i] as nat);
    }
    lemma_groups_back(g, tail);
    lemma_joined_plain(parts, '%');
    lemma_joined_plain(parts, ']');
    if g.len() > 0 {
        lemma_no_gap(parts);
        text::lemma_split_joined(parts, ':');
    } else {
        assert(g =~= Seq::empty());
    }
}

proof fn lemma_joined_plain(parts: Seq<Seq<char>>, c: char)
    requires
        c != ':',
        forall|i: int| 0 <= i < parts.len() ==> !(#[trigger] parts[i]).contains(c),
    ensures
        !text::joined(parts, seq![':']).contains(c),
    decreases parts.len(),
{
    let s = text::joined(parts, seq![':']);
    if parts.len() > 1 {
        let rest = parts.drop_last();
        assert forall|i: int| 0 <= i < rest.len() implies !(#[trigger] rest[i]).contains(c) by {
            assert(rest[i] == parts[i]);
        }
        lemma_joined_plain(rest, c);
        let f = text::joined(rest, seq![':']);
        if s.contains(c) {
            let k = choose|k: int| 0 <= k < s.len() && s[k] == c;
            if k < f.len() {
                assert(f[k] == c);
            } else if k > f.len() {
                assert(parts.last()[k - f.len() - 1] == c);
                assert(!parts[parts.len() - 1].contains(c));
            }
        }
    }
}

/// Eight groups between colons are read as they are, and two colons stand for the zeros
/// that are missing between the groups on their sides.
pub proof fn law_v6_groups_read_back(left: Seq<u16>, right: Seq<u16>)
    ensures
        left.len() == 8 ==> v6_of(groups_text(left)) == Some(left),
        left.len() + right.len() <= 7 ==> v6_of(groups_text(left) + "::"@ + groups_text(right))
            == Some(
            left + Seq::new((8 - left.len() - right.len()) as nat, |i: int| 0u16) + right,
        ),
{
    reveal_strlit("::");
    lemma_side_back(left, true);
    lemma_side_back(left, false);
    lemma_side_back(right, true);
    if left.len() == 8 {
        lemma_gap(groups_text(left), groups_text(left).len() as int);
    }
    if left.len() + right.len() <= 7 {
        let l = groups_text(left);
        let s = l + "::"@ + groups_text(right);
        let n = l.len() as int;
        assert(s[n] == ':' && s[n + 1] == ':');
        assert forall|i: int| 0 <= i < n && i + 1 < s.len() implies !(#[trigger] s[i] == ':' && s[i
            + 1] == ':') by {
            if i < n - 1 {
                assert(s[i] == l[i] && s[i + 1] == l[i + 1]);
            } else {
                assert(s[i] == l.last());
            }
        }
        lemma_gap(s, n);
        assert(s.take(n) =~= l);
        assert(s.skip(n + 2) =~= groups_text(right));
        assert(zeros(8 - left.len() - right.len()) =~= Seq::new(
            (8 - left.len() - right.len()) as nat,
            |i: int| 0u16,
        ));
    }
}

proof fn lemma_run_at(g: Seq<u16>, i: int)
    requires
        0 <= i <= g.len(),
    ensures
        0 <= run_at(g, i) <= g.len() - i,
        forall|k: int| i <= k < i + run_at(g, i) ==> #[trigger] g[k] == 0,
    decreases g.len() - i,
{
    if i < g.len() && g[i] == 0 {
        lemma_run_at(g, i + 1);
    }
}

proof fn lemma_longest_run(g: Seq<u16>, n: int)
    requires
        0 <= n <= g.len(),
    ensures
        0 <= longest_run(g, n).0 <= g.len(),
        0 <= longest_run(g, n).1 <= g.len() - longest_run(g, n).0,
        forall|k: int|
            longest_run(g, n).0 <= k < longest_run(g, n).0 + longest_run(g, n).1 ==> #[trigger] g[k]
                == 0,
    decreases n,
{
    if n > 0 {
        lemma_longest_run(g, n - 1);
        lemma_run_at(g, n - 1);
    }
}

/// An address of version 6 that is shown is read as it was, but for one that holds an
/// address of version 4, which is shown by its bytes.
pub proof fn law_v6_reads_back(g: Seq<u16>)
    requires
        g.len() == 8,
        !(g[0] == 0 && g[1] == 0 && g[2] == 0 && g[3] == 0 && g[4] == 0 && g[5] == 0xffff),
    ensures
        v6_of(v6_text(g)) == Some(g),
{
    lemma_run_at(g, 0);
    if run_at(g, 0) == 5 {
        assert(g[0] == 0 && g[1] == 0 && g[2] == 0 && g[3] == 0 && g[4] == 0);
    }
    lemma_longest_run(g, 8);
    let (start, len) = longest_run(g, 8);
    if len > 1 {
        let left = g.take(start);
        let right = g.skip(start + len);
        law_v6_groups_read_back(left, right);
        assert(left + Seq::new((8 - left.len() - right.len()) as nat, |i: int| 0u16) + right =~= g);
    } else {
        law_v6_groups_read_back(g, g);
    }
}

/// An address of version 4 with a port is read as it was written.
pub proof fn law_sockets_read_back(a: u8, b: u8, c: u8, d: u8, port: u16)
    ensures
        socket_of(
            socket_text(SocketView { ip: IpView::V4(a, b, c, d), scope: 0, port }),
        ) == Some(SocketView { ip: IpView::V4(a, b, c, d), scope: 0, port }),
{
    reveal_strlit(":");
    law_v4_reads_back(a, b, c, d);
    let addr = v4_text(a, b, c, d);
    let p = text::dec(port as nat);
    let s = addr + ":"@ + p;
    assert forall|i: int| 0 <= i < addr.len() implies #[trigger] s[i] != ':' by {
        assert(addr.contains(addr[i]));
    }
    text::lemma_first_of_unique(s, ':', addr.len() as int);
    assert(s.take(addr.len() as int) =~= addr);
    assert(s.skip(addr.len() as int + 1) =~= p);
    text::lemma_dec(port as nat);
}

} // verus!
