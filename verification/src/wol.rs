//! Waking a streaming host over the network.
//!
//! A host that sleeps does not answer, so its hardware address has to be known
//! beforehand. Three sources are asked in turn: the configuration, the table of
//! neighbours and a cache of what that table once said.

use crate::json::{read_texts, text_json, Fields};
use crate::net_addr::{parse_ip, v4_shown, Ip};
use crate::text;
use vstd::hash_map::StringHashMap;
use vstd::prelude::*;

verus! {

/// An Ethernet hardware address.
#[derive(Debug, Clone, Copy, PartialEq, Eq)]
pub struct Mac(pub [u8; 6]);

/// `s` with colons for its dashes.
pub open spec fn with_colons(s: Seq<char>) -> Seq<char> {
    Seq::new(
        s.len(),
        |i: int|
            if s[i] == '-' {
                ':'
            } else {
                s[i]
            },
    )
}

/// The octets that `s` spells: hexadecimal numbers between colons or dashes, with
/// white space around them or without.
pub open spec fn octet_texts(s: Seq<char>) -> Seq<Seq<char>> {
    text::split_on(with_colons(s), ':')
}

/// The number of at most 255 that `t` spells in hexadecimal: digits and nothing
/// else, but for white space around them.
pub open spec fn octet(t: Seq<char>) -> Option<nat> {
    let digits = text::trimmed(t);
    if digits.len() > 0 && text::all_digits(digits, 16) && text::digits_value(digits, 16) <= 255 {
        Some(text::digits_value(digits, 16))
    } else {
        None
    }
}

fn parse_octet(t: &str) -> (r: Option<u8>)
    ensures
        r is Some <==> octet(t@) is Some,
        r matches Some(n) ==> octet(t@) == Some(n as nat),
{
    let digits = text::trim(t);
    let v = text::chars_of(digits.as_str());
    if v.len() > 0 && v[0] == '+' {
        assert(text::digit_value('+', 16) == 16);
        return None;
    }
    match text::parse_uint(digits.as_str(), 16, 255) {
        Some(n) => Some(n as u8),
        None => None,
    }
}

/// Whether `s` spells a hardware address: six octets.
pub open spec fn is_mac(s: Seq<char>) -> bool {
    &&& octet_texts(s).len() == 6
    &&& forall|i: int| 0 <= i < 6 ==> octet(#[trigger] octet_texts(s)[i]) is Some
}

/// The hardware address that `s` spells.
pub open spec fn mac_of(s: Seq<char>) -> Option<Seq<u8>> {
    if is_mac(s) {
        Some(Seq::new(6, |i: int| octet(octet_texts(s)[i])->0 as u8))
    } else {
        None
    }
}

/// An octet as two hexadecimal digits.
pub open spec fn hex2(b: u8) -> Seq<char> {
    seq![text::digit_char(b as int / 16), text::digit_char(b as int % 16)]
}

/// A hardware address in lower case with colons.
pub open spec fn canonical(m: Seq<u8>) -> Seq<char> {
    text::joined(Seq::new(m.len(), |i: int| hex2(m[i])), ":"@)
}

impl Mac {
    /// The six octets.
    pub open spec fn octets(self) -> Seq<u8> {
        self.0@
    }

    /// Reads an address: `aa:bb:cc:dd:ee:ff` or `AA-BB-CC-DD-EE-FF`.
    pub fn parse(s: &str) -> (r: Option<Mac>)
        ensures
            r is Some <==> mac_of(s@) is Some,
            r matches Some(m) ==> mac_of(s@) == Some(m.octets()),
    {
        let mut v = text::chars_of(s);
        let mut i: usize = 0;
        while i < v.len()
            invariant
                i <= v.len(),
                v@.len() == s@.len(),
                forall|k: int| 0 <= k < i ==> v@[k] == with_colons(s@)[k],
                forall|k: int| i <= k < v@.len() ==> v@[k] == s@[k],
            decreases v.len() - i,
        {
            if v[i] == '-' {
                v[i] = ':';
            }
            i += 1;
        }
        assert(v@ =~= with_colons(s@));
        let parts = text::split_char(text::text_of(&v).as_str(), ':');
        assert(text::views(parts@).len() == parts@.len());
        if parts.len() != 6 {
            return None;
        }
        let mut octets: [u8; 6] = [0, 0, 0, 0, 0, 0];
        let mut k: usize = 0;
        while k < 6
            invariant
                k <= 6,
                parts@.len() == 6,
                text::views(parts@) == octet_texts(s@),
                forall|j: int|
                    0 <= j < k ==> octet(#[trigger] octet_texts(s@)[j]) == Some(
                        octets@[j] as nat,
                    ),
            decreases 6 - k,
        {
            assert(text::views(parts@)[k as int] == parts@[k as int]@);
            match parse_octet(parts[k].as_str()) {
                Some(n) => {
                    octets[k] = n;
                },
                None => {
                    assert(octet(octet_texts(s@)[k as int]) is None);
                    return None;
                },
            }
            k += 1;
        }
        let m = Mac(octets);
        assert(m.octets() =~= mac_of(s@)->0);
        Some(m)
    }

    /// The address in lower case with colons.
    pub fn to_canonical(self) -> (r: String)
        ensures
            r@ == canonical(self.octets()),
    {
        let mut parts: Vec<String> = Vec::new();
        let mut i: usize = 0;
        while i < 6
            invariant
                i <= 6,
                parts@.len() == i,
                forall|k: int| 0 <= k < i ==> (#[trigger] parts@[k])@ == hex2(self.octets()[k]),
            decreases 6 - i,
        {
            let b: u8 = self.0[i];
            let mut t = String::new();
            t.push(text::digit_of(b / 16));
            t.push(text::digit_of(b % 16));
            assert(t@ =~= hex2(b));
            parts.push(t);
            i += 1;
        }
        assert(text::views(parts@) =~= Seq::new(
            self.octets().len(),
            |i: int| hex2(self.octets()[i]),
        ));
        text::join(&parts, ":")
    }
}

/// The byte `i` of the packet that wakes `m`.
pub open spec fn packet_byte(m: Seq<u8>, i: int) -> u8 {
    if i < 6 {
        0xff
    } else {
        m[i % 6]
    }
}

/// The packet that wakes the host at `mac`: six bytes of ones, then the address
/// sixteen times.
pub fn magic_packet(mac: Mac) -> (r: Vec<u8>)
    ensures
        r@ == Seq::new(102, |i: int| packet_byte(mac.octets(), i)),
{
    let mut packet: Vec<u8> = Vec::new();
    let mut i: usize = 0;
    while i < 102
        invariant
            i <= 102,
            packet@.len() == i,
            forall|k: int| 0 <= k < i ==> packet@[k] == packet_byte(mac.octets(), k),
        decreases 102 - i,
    {
        if i < 6 {
            packet.push(0xff);
        } else {
            packet.push(mac.0[i % 6]);
        }
        i += 1;
    }
    assert(packet@ =~= Seq::new(102, |i: int| packet_byte(mac.octets(), i)));
    packet
}

proof fn lemma_hex2(b: u8)
    ensures
        text::parsed_uint(hex2(b), 16, 255) == Some(b as nat),
        text::trimmed(hex2(b)) == hex2(b),
        !hex2(b).contains(':'),
        !hex2(b).contains('-'),
{
    let s = hex2(b);
    let a = s.drop_last();
    text::lemma_trimmed_fixed(s);
    assert(a.drop_last() =~= Seq::empty());
    assert(text::digits_value(a.drop_last(), 16) == 0);
    assert(text::digit_value(s[0], 16) == b as int / 16);
    assert(text::digit_value(s[1], 16) == b as int % 16);
    assert(text::digits_value(a, 16) == b as int / 16);
    assert(text::digits_value(s, 16) == b);
}

/// What [`Mac::to_canonical`] writes, [`Mac::parse`] reads.
pub proof fn law_canonical_reads_back(m: Seq<u8>)
    requires
        m.len() == 6,
    ensures
        mac_of(canonical(m)) == Some(m),
{
    reveal_strlit(":");
    assert(":"@ =~= seq![':']);
    let parts = Seq::new(6, |i: int| hex2(m[i]));
    assert(parts =~= Seq::new(m.len(), |i: int| hex2(m[i])));
    let s = canonical(m);
    assert forall|i: int| 0 <= i < parts.len() implies !(#[trigger] parts[i]).contains(':')
        && !parts[i].contains('-') by {
        lemma_hex2(m[i]);
    }
    text::lemma_split_joined(parts, ':');
    lemma_no_dash(parts);
    assert(with_colons(s) =~= s) by {
        assert forall|i: int| 0 <= i < s.len() implies s[i] != '-' by {
            assert(s.contains(s[i]));
        }
    }
    assert(octet_texts(s) == parts);
    assert forall|i: int| 0 <= i < 6 implies octet(#[trigger] octet_texts(s)[i]) == Some(
        m[i] as nat,
    ) by {
        lemma_hex2(m[i]);
    }
    assert(mac_of(s)->0 =~= m);
}

proof fn lemma_no_dash(parts: Seq<Seq<char>>)
    requires
        forall|i: int| 0 <= i < parts.len() ==> !(#[trigger] parts[i]).contains('-'),
    ensures
        !text::joined(parts, ":"@).contains('-'),
    decreases parts.len(),
{
    reveal_strlit(":");
    if parts.len() > 1 {
        let front = parts.drop_last();
        assert forall|i: int| 0 <= i < front.len() implies !(#[trigger] front[i]).contains('-') by {
            assert(front[i] == parts[i]);
        }
        lemma_no_dash(front);
        let s = text::joined(front, ":"@);
        let all = text::joined(parts, ":"@);
        if all.contains('-') {
            let k = choose|k: int| 0 <= k < all.len() && all[k] == '-';
            if k < s.len() {
                assert(s[k] == '-');
            } else if k > s.len() {
                assert(parts.last()[k - s.len() - 1] == '-');
            }
        }
    }
}

// ---------------------------------------------------------------------------
// The table of neighbours
// ---------------------------------------------------------------------------

/// Index of the first `lladdr` among `words` that a word follows, or their
/// number.
pub open spec fn lladdr_at(words: Seq<Seq<char>>, from: int) -> int
    decreases words.len() - from,
{
    if from < 0 || from + 1 >= words.len() {
        words.len() as int
    } else if words[from] == "lladdr"@ {
        from
    } else {
        lladdr_at(words, from + 1)
    }
}

/// The neighbour on a line: its first word, and the hardware address behind the
/// first `lladdr`.
pub open spec fn neighbor_on(line: Seq<char>) -> Option<(Seq<char>, Seq<u8>)> {
    let words = text::words_of(line);
    let i = lladdr_at(words, 1);
    if i + 1 < words.len() && mac_of(words[i + 1]) is Some {
        Some((words[0], mac_of(words[i + 1])->0))
    } else {
        None
    }
}

/// The neighbours on some lines; of two with one address the later counts.
pub open spec fn neighbors(lines: Seq<Seq<char>>) -> Map<Seq<char>, Seq<u8>>
    decreases lines.len(),
{
    if lines.len() == 0 {
        Map::empty()
    } else {
        let rest = neighbors(lines.drop_last());
        match neighbor_on(lines.last()) {
            Some(n) => rest.insert(n.0, n.1),
            None => rest,
        }
    }
}

fn read_neighbor(line: &str) -> (r: Option<(String, Mac)>)
    ensures
        r is Some <==> neighbor_on(line@) is Some,
        r matches Some(n) ==> neighbor_on(line@) == Some((n.0@, n.1.octets())),
{
    let words = text::words(line);
    let ghost w = text::words_of(line@);
    assert(w.len() == words@.len());
    let mut i: usize = 1;
    while i < words.len() && i + 1 < words.len()
        invariant
            1 <= i,
            text::views(words@) == w,
            w == text::words_of(line@),
            w.len() == words@.len(),
            lladdr_at(w, 1) == lladdr_at(w, i as int),
        decreases words.len() - i,
    {
        assert(w[i as int] == words@[i as int]@);
        if text::same_text(words[i].as_str(), "lladdr") {
            assert(w[i + 1] == words@[i + 1]@);
            assert(w[0] == words@[0]@);
            return match Mac::parse(words[i + 1].as_str()) {
                Some(m) => Some((words[0].clone(), m)),
                None => None,
            };
        }
        i += 1;
    }
    None
}

/// Reads the output of `ip neigh show`: the hardware address of each neighbour
/// that has one.
pub fn parse_ip_neigh(output: &str) -> (r: StringHashMap<Mac>)
    ensures
        r@.dom() == neighbors(text::lines_of(output@)).dom(),
        forall|ip: Seq<char>| #[trigger]
            r@.contains_key(ip) ==> r@[ip].octets() == neighbors(text::lines_of(output@))[ip],
{
    let lines = text::lines(output);
    let ghost all = text::lines_of(output@);
    let mut table: StringHashMap<Mac> = StringHashMap::new();
    let mut i: usize = 0;
    assert(all.take(0) =~= Seq::empty());
    assert(table@.dom() =~= neighbors(all.take(0)).dom());
    while i < lines.len()
        invariant
            i <= lines.len(),
            text::views(lines@) == all,
            table@.dom() == neighbors(all.take(i as int)).dom(),
            forall|ip: Seq<char>| #[trigger]
                table@.contains_key(ip) ==> table@[ip].octets() == neighbors(all.take(i as int))[ip],
        decreases lines.len() - i,
    {
        let ghost next = all.take(i + 1);
        assert(next.drop_last() =~= all.take(i as int));
        assert(next.last() == lines@[i as int]@);
        if let Some((ip, mac)) = read_neighbor(lines[i].as_str()) {
            table.insert(ip, mac);
        }
        i += 1;
        assert(table@.dom() =~= neighbors(all.take(i as int)).dom());
    }
    assert(all.take(i as int) =~= all);
    table
}

// ---------------------------------------------------------------------------
// The sources of an address
// ---------------------------------------------------------------------------

/// The address that the configuration gives, where it is one.
pub open spec fn configured_mac(configured: Option<&str>) -> Option<Seq<u8>> {
    match configured {
        Some(s) => mac_of(s@),
        None => None,
    }
}

/// The address of a host: the configured one, else that of the neighbour, else
/// the cached one. A source is asked only where those before it have none, and a
/// configured text that is no address counts as none.
pub fn pick_mac(
    configured: Option<&str>,
    neighbor: impl FnOnce() -> Option<Mac>,
    cached: impl FnOnce() -> Option<Mac>,
) -> (r: Option<Mac>)
    requires
        configured_mac(configured) is None ==> neighbor.requires(()),
        configured_mac(configured) is None && neighbor.ensures((), None) ==> cached.requires(()),
    ensures
        configured_mac(configured) is Some ==> r is Some && r->0.octets() == configured_mac(
            configured,
        )->0,
        configured_mac(configured) is None ==> (r is Some && neighbor.ensures((), r)) || (
        neighbor.ensures((), None) && cached.ensures((), r)),
{
    if let Some(s) = configured {
        if let Some(m) = Mac::parse(s) {
            return Some(m);
        }
    }
    if let Some(m) = neighbor() {
        return Some(m);
    }
    cached()
}

/// The text of `key` in a cache, where it has one.
pub open spec fn cached_text(cache: Seq<(String, String)>, key: Seq<char>) -> Option<Seq<char>>
    decreases cache.len(),
{
    if cache.len() == 0 {
        None
    } else if cache[0].0@ == key {
        Some(cache[0].1@)
    } else {
        cached_text(cache.skip(1), key)
    }
}

fn find_cached(cache: &Vec<(String, String)>, key: &str) -> (r: usize)
    ensures
        r <= cache@.len(),
        forall|i: int| 0 <= i < r ==> (#[trigger] cache@[i]).0@ != key@,
        r < cache@.len() ==> cache@[r as int].0@ == key@ && cached_text(cache@, key@) == Some(
            cache@[r as int].1@,
        ),
        r == cache@.len() ==> cached_text(cache@, key@) is None,
{
    let mut i: usize = 0;
    assert(cache@.skip(0) =~= cache@);
    while i < cache.len() && !text::same_text(cache[i].0.as_str(), key)
        invariant
            i <= cache.len(),
            forall|k: int| 0 <= k < i ==> (#[trigger] cache@[k]).0@ != key@,
            cached_text(cache@, key@) == cached_text(cache@.skip(i as int), key@),
        decreases cache.len() - i,
    {
        assert(cache@.skip(i as int).skip(1) =~= cache@.skip(i + 1));
        i += 1;
    }
    i
}

/// The address that a cache gives for a host: that of its IPv4 address, or else
/// that of its name.
pub open spec fn cached_octets(
    cache: Seq<(String, String)>,
    host: Seq<char>,
    ipv4: Seq<char>,
) -> Option<Seq<u8>> {
    match cached_text(cache, ipv4) {
        Some(s) => mac_of(s),
        None => match cached_text(cache, host) {
            Some(s) => mac_of(s),
            None => None,
        },
    }
}

/// The address that a cache gives for a host.
pub fn cached_mac(cache: &Vec<(String, String)>, host: &str, ipv4: &str) -> (r: Option<Mac>)
    ensures
        r is Some <==> cached_octets(cache@, host@, ipv4@) is Some,
        r matches Some(m) ==> cached_octets(cache@, host@, ipv4@) == Some(m.octets()),
{
    let i = find_cached(cache, ipv4);
    if i < cache.len() {
        return Mac::parse(cache[i].1.as_str());
    }
    let k = find_cached(cache, host);
    if k < cache.len() {
        return Mac::parse(cache[k].1.as_str());
    }
    None
}

proof fn lemma_cached_text(a: Seq<(String, String)>, b: Seq<(String, String)>, key: Seq<char>)
    requires
        a.len() == b.len(),
        forall|i: int|
            0 <= i < a.len() ==> (#[trigger] a[i]).0@ == b[i].0@ && (a[i].0@ == key ==> a[i].1@
                == b[i].1@),
    ensures
        cached_text(a, key) == cached_text(b, key),
    decreases a.len(),
{
    if a.len() > 0 {
        let x = a.skip(1);
        let y = b.skip(1);
        assert(a[0].0@ == b[0].0@);
        assert forall|i: int| 0 <= i < x.len() implies (#[trigger] x[i]).0@ == y[i].0@ && (x[i].0@
            == key ==> x[i].1@ == y[i].1@) by {
            assert(x[i] == a[i + 1]);
            assert(y[i] == b[i + 1]);
        }
        lemma_cached_text(x, y, key);
    }
}

proof fn lemma_cached_push(a: Seq<(String, String)>, e: (String, String), key: Seq<char>)
    ensures
        cached_text(a.push(e), key) == (match cached_text(a, key) {
            Some(s) => Some(s),
            None => if e.0@ == key {
                Some(e.1@)
            } else {
                None
            },
        }),
    decreases a.len(),
{
    let b = a.push(e);
    if a.len() > 0 {
        assert(b.skip(1) =~= a.skip(1).push(e));
        lemma_cached_push(a.skip(1), e, key);
    } else {
        assert(b.skip(1) =~= Seq::empty());
        assert(cached_text(b.skip(1), key) is None);
    }
}

/// Puts the text of `key` into a cache, in place of what it had.
pub fn remember(cache: &mut Vec<(String, String)>, key: &str, value: &str)
    ensures
        forall|k: Seq<char>| #[trigger]
            cached_text(final(cache)@, k) == (if k == key@ {
                Some(value@)
            } else {
                cached_text(old(cache)@, k)
            }),
{
    let ghost before = cache@;
    let i = find_cached(cache, key);
    let entry = (key.to_owned(), value.to_owned());
    if i < cache.len() {
        cache[i] = entry;
        proof {
            assert(cache@ == before.update(i as int, entry));
            lemma_cached_first(cache@, key@, i as int);
            assert forall|k: Seq<char>| k != key@ implies cached_text(cache@, k) == cached_text(
                before,
                k,
            ) by {
                lemma_cached_text(before, cache@, k);
            }
        }
    } else {
        cache.push(entry);
        proof {
            assert forall|k: Seq<char>| #[trigger] cached_text(cache@, k) == (if k == key@ {
                Some(value@)
            } else {
                cached_text(before, k)
            }) by {
                lemma_cached_push(before, entry, k);
            }
        }
    }
}

proof fn lemma_cached_first(cache: Seq<(String, String)>, key: Seq<char>, n: int)
    requires
        0 <= n < cache.len(),
        forall|i: int| 0 <= i < n ==> (#[trigger] cache[i]).0@ != key,
        cache[n].0@ == key,
    ensures
        cached_text(cache, key) == Some(cache[n].1@),
    decreases n,
{
    if n > 0 {
        assert(cache[0].0@ != key);
        let t = cache.skip(1);
        assert forall|i: int| 0 <= i < n - 1 implies (#[trigger] t[i]).0@ != key by {
            assert(t[i] == cache[i + 1]);
        }
        lemma_cached_first(t, key, n - 1);
    }
}

/// The address of the neighbour at `ipv4` in the output of `ip neigh show`. Where
/// there is one, it is put into the cache under the IPv4 address and under the
/// name, for the time when the host sleeps.
pub fn neighbor_mac(
    output: &str,
    cache: &mut Vec<(String, String)>,
    host: &str,
    ipv4: &str,
) -> (r: Option<Mac>)
    ensures
        ({
            let table = neighbors(text::lines_of(output@));
            &&& r is Some <==> table.contains_key(ipv4@)
            &&& r matches Some(m) ==> m.octets() == table[ipv4@]
            &&& r is None ==> final(cache)@ == old(cache)@
            &&& r matches Some(m) ==> forall|k: Seq<char>| #[trigger]
                cached_text(final(cache)@, k) == (if k == ipv4@ || k == host@ {
                    Some(canonical(m.octets()))
                } else {
                    cached_text(old(cache)@, k)
                })
        }),
{
    let table = parse_ip_neigh(output);
    let mac: Mac = match table.get(ipv4) {
        Some(m) => *m,
        None => {
            return None;
        },
    };
    let t = mac.to_canonical();
    remember(cache, ipv4, t.as_str());
    remember(cache, host, t.as_str());
    Some(mac)
}

/// What the table of neighbours said is what the cache says afterwards, under
/// either name of the host.
pub proof fn law_cache_keeps_neighbor(
    cache: Seq<(String, String)>,
    host: Seq<char>,
    ipv4: Seq<char>,
    mac: Seq<u8>,
)
    requires
        mac.len() == 6,
        cached_text(cache, ipv4) == Some(canonical(mac)),
        cached_text(cache, host) == Some(canonical(mac)),
    ensures
        cached_octets(cache, host, ipv4) == Some(mac),
        cached_octets(cache, host, host) == Some(mac),
{
    law_canonical_reads_back(mac);
}

/// The entries of the file that holds a cache: each key once, with what the cache
/// says of it.
pub open spec fn cache_entries(cache: Seq<(String, String)>) -> Seq<
    (Seq<char>, crate::json::JsonView),
>
    decreases cache.len(),
{
    if cache.len() == 0 {
        Seq::empty()
    } else {
        crate::json::put(
            cache_entries(cache.skip(1)),
            cache[0].0@,
            crate::json::JsonView::Text(cache[0].1@),
        )
    }
}

/// The text of the file that holds a cache.
pub fn write_cache(cache: &Vec<(String, String)>) -> (r: String)
    ensures
        r@ == crate::json::compact(crate::json::JsonView::Object(cache_entries(cache@))),
{
    let mut fields = Fields::new();
    let mut i: usize = cache.len();
    assert(cache@.skip(cache@.len() as int) =~= Seq::empty());
    while i > 0
        invariant
            i <= cache.len(),
            fields@ == cache_entries(cache@.skip(i as int)),
        decreases i,
    {
        i -= 1;
        assert(cache@.skip(i as int).skip(1) =~= cache@.skip(i + 1));
        fields = fields.put(cache[i].0.as_str(), text_json(cache[i].1.as_str()));
    }
    assert(cache@.skip(0) =~= cache@);
    fields.object().to_compact()
}

/// The cache that a file holds, given what was read of it; none where it could not
/// be read.
pub fn cache_of(read: Option<Vec<(String, String)>>) -> (r: Vec<(String, String)>)
    ensures
        r@ == (match read {
            Some(entries) => entries@,
            None => Seq::empty(),
        }),
{
    match read {
        Some(entries) => entries,
        None => Vec::new(),
    }
}

/// The cache that the text of a file holds: an object of texts. Anything else holds
/// none. What [`write_cache`] wrote is read back.
pub fn read_cache(text: &str) -> (r: Vec<(String, String)>)
    ensures
        crate::json::pairs_said(r@) == (match crate::json::texts_read(text@) {
            Some(entries) => entries,
            None => Seq::empty(),
        }),
        forall|cache: Seq<(String, String)>, key: Seq<char>|
            text@ == crate::json::compact(
                crate::json::JsonView::Object(#[trigger] cache_entries(cache)),
            ) ==> #[trigger] cached_text(r@, key) == cached_text(cache, key),
{
    let read = read_texts(text);
    let r = cache_of(read);
    assert(read is None ==> crate::json::pairs_said(r@) =~= Seq::empty());
    assert forall|cache: Seq<(String, String)>, key: Seq<char>|
        text@ == crate::json::compact(
            crate::json::JsonView::Object(#[trigger] cache_entries(cache)),
        ) implies #[trigger] cached_text(r@, key) == cached_text(cache, key) by {
        let entries = cache_entries(cache);
        lemma_cache_entries(cache, key);
        let texts = Seq::new(entries.len(), |i: int| (entries[i].0, entries[i].1->Text_0));
        assert(crate::json::text_object(texts)->Object_0 =~= entries);
        assert(crate::json::pairs_said(r@) == texts);
        assert forall|i: int| 0 <= i < r@.len() implies (#[trigger] entries[i]) == (
            r@[i].0@,
            crate::json::JsonView::Text(r@[i].1@),
        ) by {
            assert(crate::json::pairs_said(r@)[i] == texts[i]);
        }
        lemma_said_text(r@, entries, key);
    }
    r
}

proof fn lemma_cache_entries(cache: Seq<(String, String)>, key: Seq<char>)
    ensures
        crate::json::in_order(cache_entries(cache)),
        forall|i: int|
            0 <= i < cache_entries(cache).len() ==> (#[trigger] cache_entries(cache)[i]).1 is Text,
        crate::json::member(crate::json::JsonView::Object(cache_entries(cache)), key) == (
        match cached_text(cache, key) {
            Some(s) => Some(crate::json::JsonView::Text(s)),
            None => None,
        }),
    decreases cache.len(),
{
    if cache.len() > 0 {
        let rest = cache_entries(cache.skip(1));
        lemma_cache_entries(cache.skip(1), key);
        let value = crate::json::JsonView::Text(cache[0].1@);
        crate::json::lemma_put(rest, cache[0].0@, value, key);
        assert forall|i: int| 0 <= i < cache_entries(cache).len() implies (
        #[trigger] cache_entries(cache)[i]).1 is Text by {
            let e = crate::json::put(rest, cache[0].0@, value)[i];
            if e != (cache[0].0@, value) {
                assert(rest.contains(e));
            }
        }
    }
}

proof fn lemma_said_text(
    cache: Seq<(String, String)>,
    entries: Seq<(Seq<char>, crate::json::JsonView)>,
    key: Seq<char>,
)
    requires
        cache.len() == entries.len(),
        forall|i: int|
            0 <= i < cache.len() ==> (#[trigger] entries[i]) == (
                cache[i].0@,
                crate::json::JsonView::Text(cache[i].1@),
            ),
    ensures
        crate::json::member(crate::json::JsonView::Object(entries), key) == (match cached_text(
            cache,
            key,
        ) {
            Some(s) => Some(crate::json::JsonView::Text(s)),
            None => None,
        }),
    decreases cache.len(),
{
    if cache.len() > 0 {
        let t = entries.skip(1);
        assert(entries[0].0 == cache[0].0@);
        assert forall|i: int| 0 <= i < t.len() implies (#[trigger] t[i]) == (
            cache.skip(1)[i].0@,
            crate::json::JsonView::Text(cache.skip(1)[i].1@),
        ) by {
            assert(t[i] == entries[i + 1]);
        }
        lemma_said_text(cache.skip(1), t, key);
        crate::json::lemma_entry_bound(t, key);
    }
}

// ---------------------------------------------------------------------------
// Addresses of a host
// ---------------------------------------------------------------------------

/// The first IPv4 address of a list, as it is written.
pub open spec fn first_v4(ips: Seq<Ip>) -> Option<Seq<char>>
    decreases ips.len(),
{
    if ips.len() == 0 {
        None
    } else {
        match ips[0] {
            Ip::V4(a, b, c, d) => Some(crate::net_addr::v4_text(a, b, c, d)),
            Ip::V6(_) => first_v4(ips.skip(1)),
        }
    }
}

/// The IPv4 address of a host: the host itself, where it is one; none where it is
/// an IPv6 address, which the table of neighbours does not list; and otherwise the
/// first that the resolver gave for the name.
pub open spec fn ipv4_of(host: Seq<char>, resolved: Seq<Ip>) -> Option<Seq<char>> {
    match crate::net_addr::ip_of(host) {
        Some(crate::net_addr::IpView::V4(_, _, _, _)) => Some(host),
        Some(crate::net_addr::IpView::V6(_)) => None,
        None => first_v4(resolved),
    }
}

/// The IPv4 address of a host. `resolved` is what the resolver gives for the name;
/// it is looked at only where `host` is no address.
pub fn resolve_ipv4(host: &str, resolved: &[Ip]) -> (r: Option<String>)
    ensures
        crate::json::text_view(r) == ipv4_of(host@, resolved@),
{
    match parse_ip(host) {
        Some(Ip::V4(_, _, _, _)) => {
            return Some(host.to_owned());
        },
        Some(Ip::V6(_)) => {
            return None;
        },
        None => {},
    }
    let mut i: usize = 0;
    assert(resolved@.skip(0) =~= resolved@);
    while i < resolved.len()
        invariant
            i <= resolved.len(),
            crate::net_addr::ip_of(host@) is None,
            first_v4(resolved@) == first_v4(resolved@.skip(i as int)),
        decreases resolved.len() - i,
    {
        if let Ip::V4(a, b, c, d) = &resolved[i] {
            return Some(v4_shown(*a, *b, *c, *d));
        }
        assert(resolved@.skip(i as int).skip(1) =~= resolved@.skip(i + 1));
        i += 1;
    }
    None
}

/// The hardware address that the three sources have for a host.
pub open spec fn known_octets(
    configured: Option<&str>,
    seen: Map<Seq<char>, Seq<u8>>,
    cache: Seq<(String, String)>,
    host: Seq<char>,
    ipv4: Seq<char>,
) -> Option<Seq<u8>> {
    if configured_mac(configured) is Some {
        configured_mac(configured)
    } else if seen.contains_key(ipv4) {
        Some(seen[ipv4])
    } else {
        cached_octets(cache, host, ipv4)
    }
}

/// The neighbours in the output of `ip neigh show`; none where it could not be
/// had.
pub open spec fn seen_neighbors(output: Option<&str>) -> Map<Seq<char>, Seq<u8>> {
    match output {
        Some(o) => neighbors(text::lines_of(o@)),
        None => Map::empty(),
    }
}

/// The hardware address of the neighbour at `ipv4`.
fn seen_mac(output: Option<&str>, ipv4: &str) -> (r: Option<Mac>)
    ensures
        r is Some <==> seen_neighbors(output).contains_key(ipv4@),
        r matches Some(m) ==> m.octets() == seen_neighbors(output)[ipv4@],
{
    match output {
        Some(o) => match parse_ip_neigh(o).get(ipv4) {
            Some(m) => Some(*m),
            None => None,
        },
        None => None,
    }
}

/// The hardware address of a host, from the configuration, the table of
/// neighbours or the cache, in this order. The cache takes up what the table
/// says, but only where the table is asked.
pub fn resolve_mac(
    host: &str,
    ipv4: &str,
    configured: Option<&str>,
    output: Option<&str>,
    cache: &mut Vec<(String, String)>,
) -> (r: Option<Mac>)
    ensures
        r is Some <==> known_octets(
            configured,
            seen_neighbors(output),
            old(cache)@,
            host@,
            ipv4@,
        ) is Some,
        r matches Some(m) ==> known_octets(
            configured,
            seen_neighbors(output),
            old(cache)@,
            host@,
            ipv4@,
        ) == Some(m.octets()),
        configured_mac(configured) is Some || !seen_neighbors(output).contains_key(ipv4@)
            ==> final(cache)@ == old(cache)@,
        configured_mac(configured) is None && seen_neighbors(output).contains_key(ipv4@)
            ==> forall|k: Seq<char>| #[trigger]
            cached_text(final(cache)@, k) == (if k == ipv4@ || k == host@ {
                Some(canonical(seen_neighbors(output)[ipv4@]))
            } else {
                cached_text(old(cache)@, k)
            }),
{
    let known: &Vec<(String, String)> = &*cache;
    let neighbor = || -> (m: Option<Mac>)
        ensures
            m is Some <==> seen_neighbors(output).contains_key(ipv4@),
            m is Some ==> m->0.octets() == seen_neighbors(output)[ipv4@],
        { seen_mac(output, ipv4) };
    let cached = || -> (m: Option<Mac>)
        ensures
            m is Some <==> cached_octets(known@, host@, ipv4@) is Some,
            m is Some ==> cached_octets(known@, host@, ipv4@) == Some(m->0.octets()),
        { cached_mac(known, host, ipv4) };
    let found = pick_mac(configured, neighbor, cached);
    let pinned = match configured {
        Some(s) => Mac::parse(s).is_some(),
        None => false,
    };
    if !pinned {
        if let Some(o) = output {
            let _ = neighbor_mac(o, cache, host, ipv4);
        }
    }
    found
}

// ---------------------------------------------------------------------------
// Hosts and replies
// ---------------------------------------------------------------------------

/// A streaming host of the configuration.
#[derive(Debug, Clone, PartialEq, Eq)]
pub struct SteamHostConfig {
    pub name: String,
    pub url: String,
    pub token_file: Option<String>,
    /// Its hardware address, where it is given.
    pub mac: Option<String>,
}

/// What of a URL names the host: what stands behind `://`, up to a slash and up
/// to a colon, or between square brackets.
pub open spec fn host_part(url: Seq<char>) -> Seq<char> {
    let n = crate::hyprland::first_place(url, "://"@, 0);
    let rest = if n < url.len() {
        url.skip(n + 3)
    } else {
        url
    };
    let authority = rest.take(text::first_of(rest, '/'));
    if authority.len() > 0 && authority[0] == '[' {
        let inner = authority.skip(1);
        inner.take(text::first_of(inner, ']'))
    } else {
        authority.take(text::first_of(authority, ':'))
    }
}

fn upto(s: &str, c: char) -> (r: String)
    ensures
        r@ == s@.take(text::first_of(s@, c)),
{
    let v = text::chars_of(s);
    assert(v@.skip(0) =~= v@);
    let n = text::find_from(&v, 0, c);
    assert(v@.subrange(0, n as int) =~= v@.take(n as int));
    text::text_between(&v, 0, n)
}

/// What of a URL names the host, where that is not empty.
pub fn url_host(url: &str) -> (r: Option<String>)
    ensures
        r is Some <==> host_part(url@).len() > 0,
        r matches Some(h) ==> h@ == host_part(url@),
{
    let v = text::chars_of(url);
    let mark = text::chars_of("://");
    proof {
        reveal_strlit("://");
    }
    let mut n: usize = 0;
    while n < v.len() && !text::starts_at(&v, n, &mark)
        invariant
            v@ == url@,
            mark@ == "://"@,
            n <= v.len(),
            crate::hyprland::first_place(url@, "://"@, 0) == crate::hyprland::first_place(
                url@,
                "://"@,
                n as int,
            ),
        decreases v.len() - n,
    {
        n += 1;
    }
    let from: usize = if n < v.len() {
        n + 3
    } else {
        0
    };
    let rest = text::text_between(&v, from, v.len());
    assert(rest@ =~= (if n < v@.len() {
        v@.skip(n + 3)
    } else {
        v@
    }));
    let authority = upto(rest.as_str(), '/');
    let host = match text::strip_prefix(authority.as_str(), "[") {
        Some(inner) => {
            proof {
                reveal_strlit("[");
                assert(authority@.subrange(0, 1)[0] == authority@[0]);
            }
            upto(inner.as_str(), ']')
        },
        None => {
            proof {
                reveal_strlit("[");
                if authority@.len() > 0 && authority@[0] == '[' {
                    assert(authority@.subrange(0, 1) =~= "["@);
                }
            }
            upto(authority.as_str(), ':')
        },
    };
    if host.as_str().is_empty() {
        None
    } else {
        Some(host)
    }
}

/// Index of the first of `hosts` that `host` names, or their number.
pub open spec fn host_at(hosts: Seq<SteamHostConfig>, host: Seq<char>) -> int
    decreases hosts.len(),
{
    if hosts.len() == 0 || (host.len() > 0 && host_part(hosts[0].url@) == host) {
        0
    } else {
        1 + host_at(hosts.skip(1), host)
    }
}

/// The hardware address that the configuration gives for `host`, as it is
/// spelled. `host` is what its URL names it, not the name of the entry.
pub fn configured_mac_for(hosts: &[SteamHostConfig], host: &str) -> (r: Option<String>)
    ensures
        ({
            let i = host_at(hosts@, host@);
            if i < hosts@.len() {
                crate::json::text_view(r) == crate::json::text_view(hosts@[i].mac)
            } else {
                r is None
            }
        }),
{
    let mut i: usize = 0;
    assert(hosts@.skip(0) =~= hosts@);
    while i < hosts.len()
        invariant
            i <= hosts.len(),
            host_at(hosts@, host@) == i + host_at(hosts@.skip(i as int), host@),
        decreases hosts.len() - i,
    {
        assert(hosts@.skip(i as int)[0] == hosts@[i as int]);
        assert(hosts@.skip(i as int).skip(1) =~= hosts@.skip(i + 1));
        if let Some(h) = url_host(hosts[i].url.as_str()) {
            if text::same_text(h.as_str(), host) {
                return match &hosts[i].mac {
                    Some(m) => Some(m.clone()),
                    None => None,
                };
            }
        }
        i += 1;
    }
    None
}

/// What came of a request to wake a host.
#[derive(Debug, Clone, Copy, PartialEq, Eq)]
pub enum WolOutcome {
    /// The request named no host.
    NoHost,
    /// The host has no IPv4 address.
    NoIp,
    /// No source knows its hardware address.
    NoMac,
    /// The packet could not be sent.
    SendFailed,
    /// The packet was sent.
    Sent(Mac),
}

/// What comes of a request for `host`, given its addresses where they are known and
/// whether the packet went out.
pub fn wol_outcome(host: &str, ipv4: Option<&str>, mac: Option<Mac>, sent: bool) -> (r: WolOutcome)
    ensures
        r == (if host@.len() == 0 {
            WolOutcome::NoHost
        } else if ipv4 is None {
            WolOutcome::NoIp
        } else {
            match mac {
                None => WolOutcome::NoMac,
                Some(m) => if sent {
                    WolOutcome::Sent(m)
                } else {
                    WolOutcome::SendFailed
                },
            }
        }),
{
    if host.is_empty() {
        return WolOutcome::NoHost;
    }
    if ipv4.is_none() {
        return WolOutcome::NoIp;
    }
    match mac {
        None => WolOutcome::NoMac,
        Some(m) => if sent {
            WolOutcome::Sent(m)
        } else {
            WolOutcome::SendFailed
        },
    }
}

/// The reply for an outcome.
pub open spec fn wol_view(outcome: WolOutcome) -> crate::json::JsonView {
    let failed = |reason: Seq<char>|
        crate::json::JsonView::Object(
            seq![
                ("reason"@, crate::json::JsonView::Text(reason)),
                ("status"@, crate::json::JsonView::Text("error"@)),
            ],
        );
    match outcome {
        WolOutcome::NoHost => failed("no-host"@),
        WolOutcome::NoIp => failed("no-ip"@),
        WolOutcome::NoMac => failed("no-mac"@),
        WolOutcome::SendFailed => failed("send-failed"@),
        WolOutcome::Sent(mac) => crate::json::JsonView::Object(
            seq![
                ("mac"@, crate::json::JsonView::Text(canonical(mac.octets()))),
                ("status"@, crate::json::JsonView::Text("ok"@)),
            ],
        ),
    }
}

/// The reply to a request to wake a host.
pub fn handle_wol(outcome: WolOutcome) -> (r: String)
    ensures
        r@ == crate::json::compact(wol_view(outcome)),
{
    let fields = match outcome {
        WolOutcome::Sent(mac) => Fields::new().with(
            "mac",
            text_json(mac.to_canonical().as_str()),
        ).with("status", text_json("ok")),
        WolOutcome::NoHost => err_fields("no-host"),
        WolOutcome::NoIp => err_fields("no-ip"),
        WolOutcome::NoMac => err_fields("no-mac"),
        WolOutcome::SendFailed => err_fields("send-failed"),
    };
    assert(fields@ =~= wol_view(outcome)->Object_0);
    fields.object().to_compact()
}

fn err_fields(reason: &str) -> (r: Fields)
    ensures
        r@ == seq![
            ("reason"@, crate::json::JsonView::Text(reason@)),
            ("status"@, crate::json::JsonView::Text("error"@)),
        ],
{
    let r = Fields::new().with("reason", text_json(reason)).with("status", text_json("error"));
    assert(r@ =~= seq![
        ("reason"@, crate::json::JsonView::Text(reason@)),
        ("status"@, crate::json::JsonView::Text("error"@)),
    ]);
    r
}

/// The host that is woken without being asked to: that of the URL of the active
/// host, where this is switched on. Only the active host is ever woken so.
pub fn wake_target(enabled: bool, active_url: Option<&str>) -> (r: Option<String>)
    ensures
        r is Some <==> enabled && (active_url matches Some(u) && host_part(u@).len() > 0),
        r matches Some(h) ==> (active_url matches Some(u) && h@ == host_part(u@)),
{
    if !enabled {
        return None;
    }
    match active_url {
        Some(u) => url_host(u),
        None => None,
    }
}

// ---------------------------------------------------------------------------
// Laws
// ---------------------------------------------------------------------------

/// A configured address is used, whatever the table of neighbours and the cache say.
pub proof fn law_configured_address_comes_first(
    configured: &str,
    seen: Map<Seq<char>, Seq<u8>>,
    cache: Seq<(String, String)>,
    host: Seq<char>,
    ipv4: Seq<char>,
)
    requires
        mac_of(configured@) is Some,
    ensures
        known_octets(Some(configured), seen, cache, host, ipv4) == mac_of(configured@),
{
}

/// Without a configured address the neighbour at the IPv4 address of the host is
/// believed, whatever the cache says.
pub proof fn law_neighbor_comes_before_cache(
    configured: Option<&str>,
    seen: Map<Seq<char>, Seq<u8>>,
    cache: Seq<(String, String)>,
    host: Seq<char>,
    ipv4: Seq<char>,
)
    requires
        configured is None || mac_of(configured->0@) is None,
        seen.contains_key(ipv4),
    ensures
        known_octets(configured, seen, cache, host, ipv4) == Some(seen[ipv4]),
{
}

/// A host that sleeps is not in the table of neighbours. Its address is then what the
/// cache has, whatever other machines the table lists: that of the first entry for its
/// IPv4 address, or, where there is none, of the first for its name; and none where
/// there is neither.
pub proof fn law_sleeping_host_is_found_in_the_cache(
    configured: Option<&str>,
    output: Option<&str>,
    cache: Seq<(String, String)>,
    host: Seq<char>,
    ipv4: Seq<char>,
    i: int,
)
    requires
        configured is None || mac_of(configured->0@) is None,
        output matches Some(o) ==> forall|k: int|
            0 <= k < text::lines_of(o@).len() ==> {
                let words = #[trigger] text::words_of(text::lines_of(o@)[k]);
                words.len() == 0 || words[0] != ipv4 || forall|j: int|
                    1 <= j < words.len() ==> #[trigger] words[j] != "lladdr"@
            },
    ensures
        ({
            let known = known_octets(configured, seen_neighbors(output), cache, host, ipv4);
            let first = |key: Seq<char>, at: int|
                0 <= at < cache.len() && cache[at].0@ == key && forall|k: int|
                    0 <= k < at ==> (#[trigger] cache[k]).0@ != key;
            let held = |key: Seq<char>|
                exists|k: int| 0 <= k < cache.len() && (#[trigger] cache[k]).0@ == key;
            &&& known == cached_octets(cache, host, ipv4)
            &&& first(ipv4, i) ==> known == mac_of(cache[i].1@)
            &&& !held(ipv4) && first(host, i) ==> known == mac_of(cache[i].1@)
            &&& !held(ipv4) && !held(host) ==> known is None
        }),
{
    if let Some(o) = output {
        lemma_not_a_neighbor(text::lines_of(o@), ipv4);
    }
    if 0 <= i < cache.len() && cache[i].0@ == ipv4 && forall|k: int|
        0 <= k < i ==> (#[trigger] cache[k]).0@ != ipv4 {
        lemma_cached_first(cache, ipv4, i);
    }
    if 0 <= i < cache.len() && cache[i].0@ == host && forall|k: int|
        0 <= k < i ==> (#[trigger] cache[k]).0@ != host {
        lemma_cached_first(cache, host, i);
    }
    if !exists|k: int| 0 <= k < cache.len() && (#[trigger] cache[k]).0@ == ipv4 {
        lemma_uncached(cache, ipv4);
    }
    if !exists|k: int| 0 <= k < cache.len() && (#[trigger] cache[k]).0@ == host {
        lemma_uncached(cache, host);
    }
}

proof fn lemma_uncached(cache: Seq<(String, String)>, key: Seq<char>)
    requires
        forall|k: int| 0 <= k < cache.len() ==> (#[trigger] cache[k]).0@ != key,
    ensures
        cached_text(cache, key) is None,
    decreases cache.len(),
{
    if cache.len() > 0 {
        let t = cache.skip(1);
        assert(cache[0].0@ != key);
        assert forall|k: int| 0 <= k < t.len() implies (#[trigger] t[k]).0@ != key by {
            assert(t[k] == cache[k + 1]);
        }
        lemma_uncached(t, key);
    }
}

proof fn lemma_no_lladdr(words: Seq<Seq<char>>, from: int)
    requires
        1 <= from,
        forall|j: int| 1 <= j < words.len() ==> #[trigger] words[j] != "lladdr"@,
    ensures
        lladdr_at(words, from) == words.len(),
    decreases words.len() - from,
{
    if from + 1 < words.len() {
        assert(words[from] != "lladdr"@);
        lemma_no_lladdr(words, from + 1);
    }
}

proof fn lemma_not_a_neighbor(lines: Seq<Seq<char>>, ip: Seq<char>)
    requires
        forall|k: int|
            0 <= k < lines.len() ==> {
                let words = #[trigger] text::words_of(lines[k]);
                words.len() == 0 || words[0] != ip || forall|j: int|
                    1 <= j < words.len() ==> #[trigger] words[j] != "lladdr"@
            },
    ensures
        !neighbors(lines).contains_key(ip),
    decreases lines.len(),
{
    if lines.len() > 0 {
        let rest = lines.drop_last();
        assert forall|k: int| 0 <= k < rest.len() implies {
            let words = #[trigger] text::words_of(rest[k]);
            words.len() == 0 || words[0] != ip || forall|j: int|
                1 <= j < words.len() ==> #[trigger] words[j] != "lladdr"@
        } by {
            assert(rest[k] == lines[k]);
            assert(text::words_of(lines[k]) == text::words_of(rest[k]));
        }
        lemma_not_a_neighbor(rest, ip);
        let words = text::words_of(lines[lines.len() - 1]);
        if words.len() > 0 && words[0] == ip {
            lemma_no_lladdr(words, 1);
        }
    }
}

/// A line of the table of neighbours that starts with an IPv4 address gives it the
/// hardware address behind its first `lladdr`, unless a later line gives it another.
pub proof fn law_neighbors_are_read_from_their_lines(
    lines: Seq<Seq<char>>,
    n: int,
    at: int,
    ip: Seq<char>,
)
    requires
        0 <= n < lines.len(),
        ({
            let words = text::words_of(lines[n]);
            &&& 1 <= at < words.len() - 1
            &&& words[0] == ip
            &&& words[at] == "lladdr"@
            &&& forall|j: int| 1 <= j < at ==> #[trigger] words[j] != "lladdr"@
            &&& mac_of(words[at + 1]) is Some
        }),
        forall|k: int|
            n < k < lines.len() ==> {
                let words = #[trigger] text::words_of(lines[k]);
                words.len() == 0 || words[0] != ip
            },
    ensures
        neighbors(lines).contains_key(ip),
        Some(neighbors(lines)[ip]) == mac_of(text::words_of(lines[n])[at + 1]),
    decreases lines.len(),
{
    let rest = lines.drop_last();
    if n < lines.len() - 1 {
        assert(rest[n] == lines[n]);
        assert forall|k: int| n < k < rest.len() implies {
            let words = #[trigger] text::words_of(rest[k]);
            words.len() == 0 || words[0] != ip
        } by {
            assert(rest[k] == lines[k]);
            assert(text::words_of(lines[k]) == text::words_of(rest[k]));
        }
        law_neighbors_are_read_from_their_lines(rest, n, at, ip);
        let words = text::words_of(lines[lines.len() - 1]);
        assert(words.len() == 0 || words[0] != ip);
    } else {
        lemma_first_lladdr(text::words_of(lines[n]), 1, at);
    }
}

proof fn lemma_first_lladdr(words: Seq<Seq<char>>, from: int, at: int)
    requires
        1 <= from <= at < words.len() - 1,
        words[at] == "lladdr"@,
        forall|j: int| 1 <= j < at ==> #[trigger] words[j] != "lladdr"@,
    ensures
        lladdr_at(words, from) == at,
    decreases at - from,
{
    if from < at {
        assert(words[from] != "lladdr"@);
        lemma_first_lladdr(words, from + 1, at);
    }
}

/// A hardware address is spelled in either case and with colons or dashes, and reads as
/// the same six octets.
pub proof fn law_addresses_are_spelled_freely(m: Seq<u8>, pairs: Seq<Seq<char>>, marks: Seq<char>)
    requires
        m.len() == 6,
        pairs.len() == 6,
        marks.len() == 5,
        forall|i: int| 0 <= i < 5 ==> (#[trigger] marks[i] == ':' || marks[i] == '-'),
        forall|i: int|
            0 <= i < 6 ==> (#[trigger] pairs[i]).len() == 2 && text::digit_value(pairs[i][0], 16)
                == m[i] as int / 16 && text::digit_value(pairs[i][1], 16) == m[i] as int % 16,
    ensures
        mac_of(
            pairs[0] + seq![marks[0]] + pairs[1] + seq![marks[1]] + pairs[2] + seq![marks[2]]
                + pairs[3] + seq![marks[3]] + pairs[4] + seq![marks[4]] + pairs[5],
        ) == Some(m),
{
    let s = pairs[0] + seq![marks[0]] + pairs[1] + seq![marks[1]] + pairs[2] + seq![marks[2]]
        + pairs[3] + seq![marks[3]] + pairs[4] + seq![marks[4]] + pairs[5];
    let t = with_colons(s);
    reveal_strlit(":");
    assert(":"@ =~= seq![':']);
    assert forall|i: int| 0 <= i < 6 implies !(#[trigger] pairs[i]).contains(':')
        && !pairs[i].contains('-') && octet(pairs[i]) == Some(m[i] as nat) by {
        let p = pairs[i];
        assert(text::digit_value(p[0], 16) < 16 && text::digit_value(p[1], 16) < 16);
        text::lemma_trimmed_fixed(p);
        assert(p.drop_last() =~= seq![p[0]]);
        assert(p.drop_last().drop_last() =~= Seq::empty());
        assert(text::digits_value(p.drop_last().drop_last(), 16) == 0);
        assert(text::digits_value(p.drop_last(), 16) == m[i] as int / 16);
        assert(text::digits_value(p, 16) == m[i]);
    }
    assert forall|i: int| 0 <= i < 6 implies (#[trigger] pairs[i])[0] != '-' && pairs[i][1] != '-' by {
        assert(pairs[i].contains(pairs[i][0]) && pairs[i].contains(pairs[i][1]));
    }
    let colon = seq![':'];
    assert(t =~= pairs[0] + colon + pairs[1] + colon + pairs[2] + colon + pairs[3] + colon
        + pairs[4] + colon + pairs[5]) by {
        assert(pairs[0].len() == 2 && pairs[1].len() == 2 && pairs[2].len() == 2 && pairs[3].len()
            == 2 && pairs[4].len() == 2 && pairs[5].len() == 2);
        assert(marks[0] == ':' || marks[0] == '-');
        assert(marks[1] == ':' || marks[1] == '-');
        assert(marks[2] == ':' || marks[2] == '-');
        assert(marks[3] == ':' || marks[3] == '-');
        assert(marks[4] == ':' || marks[4] == '-');
    }
    let p5 = pairs.drop_last();
    let p4 = p5.drop_last();
    let p3 = p4.drop_last();
    let p2 = p3.drop_last();
    let p1 = p2.drop_last();
    assert(text::joined(p1, colon) == pairs[0]);
    assert(text::joined(p2, colon) == pairs[0] + colon + pairs[1]);
    assert(text::joined(p3, colon) == pairs[0] + colon + pairs[1] + colon + pairs[2]);
    assert(text::joined(p4, colon) == pairs[0] + colon + pairs[1] + colon + pairs[2] + colon
        + pairs[3]);
    assert(text::joined(p5, colon) == pairs[0] + colon + pairs[1] + colon + pairs[2] + colon
        + pairs[3] + colon + pairs[4]);
    assert(t == text::joined(pairs, colon));
    text::lemma_split_joined(pairs, ':');
    assert(octet_texts(s) == pairs);
    assert(mac_of(s)->0 =~= m);
}

/// What wakes a host is six bytes of ones and its address sixteen times.
pub proof fn law_packet_repeats_the_address(m: Seq<u8>, k: int, j: int)
    requires
        m.len() == 6,
        0 <= k < 16,
        0 <= j < 6,
    ensures
        packet_byte(m, j) == 255,
        packet_byte(m, 6 + 6 * k + j) == m[j],
{
    assert((6 + 6 * k + j) % 6 == j) by (nonlinear_arith)
        requires
            0 <= k < 16,
            0 <= j < 6,
    ;
}

/// The first of several entries whose URL names the host gives the address.
pub proof fn law_first_entry_for_a_host_counts(
    hosts: Seq<SteamHostConfig>,
    host: Seq<char>,
    n: int,
)
    requires
        0 <= n <= hosts.len(),
        host.len() > 0,
        forall|i: int| 0 <= i < n ==> host_part((#[trigger] hosts[i]).url@) != host,
        n < hosts.len() ==> host_part(hosts[n].url@) == host,
    ensures
        host_at(hosts, host) == n,
    decreases n,
{
    if n > 0 {
        assert(host_part(hosts[0].url@) != host);
        let t = hosts.skip(1);
        assert forall|i: int| 0 <= i < n - 1 implies host_part((#[trigger] t[i]).url@) != host by {
            assert(t[i] == hosts[i + 1]);
        }
        law_first_entry_for_a_host_counts(t, host, n - 1);
    }
}

/// A URL names the host between its scheme and a port or a path.
pub proof fn law_url_names_its_host(scheme: Seq<char>, name: Seq<char>, rest: Seq<char>)
    requires
        !scheme.contains(':'),
        !name.contains('/'),
        !name.contains(':'),
        name.len() > 0 ==> name[0] != '[',
        rest.len() == 0 || rest[0] == ':' || rest[0] == '/',
        name.len() == 0 ==> rest.len() == 0 || rest[0] != '[',
    ensures
        host_part(scheme + "://"@ + name + rest) == name,
{
    reveal_strlit("://");
    let url = scheme + "://"@ + name + rest;
    let n = scheme.len() as int;
    assert(url.subrange(n, n + 3) =~= "://"@);
    assert forall|i: int| 0 <= i < n implies !text::occurs_at(url, "://"@, i) by {
        if text::occurs_at(url, "://"@, i) {
            assert(url.subrange(i, i + 3)[0] == ':');
            assert(scheme[i] == ':');
        }
    }
    lemma_first_place(url, "://"@, 0, n);
    let after = url.skip(n + 3);
    assert(after =~= name + rest);
    text::lemma_first_of(after, '/');
    let k = text::first_of(after, '/');
    if k < name.len() {
        assert(name[k] == '/');
    }
    let authority = after.take(k);
    assert forall|i: int| 0 <= i < name.len() implies #[trigger] authority[i] != ':' by {
        assert(name[i] == authority[i]);
        assert(name.contains(name[i]));
    }
    if rest.len() > 0 && rest[0] == '/' {
        assert(after[name.len() as int] == '/');
        text::lemma_first_of_unique(authority, ':', name.len() as int);
    } else if rest.len() > 0 {
        assert(after[name.len() as int] == ':');
        assert(k > name.len());
        assert(authority[name.len() as int] == ':');
        text::lemma_first_of_unique(authority, ':', name.len() as int);
    } else {
        text::lemma_first_of_unique(authority, ':', name.len() as int);
    }
    assert(authority.take(name.len() as int) =~= name);
}

/// A URL names an IPv6 host between square brackets.
pub proof fn law_url_names_its_host_in_brackets(scheme: Seq<char>, name: Seq<char>, rest: Seq<char>)
    requires
        !scheme.contains(':'),
        !name.contains('/'),
        !name.contains(']'),
        rest.len() == 0 || rest[0] == ':' || rest[0] == '/',
    ensures
        host_part(scheme + "://["@ + name + "]"@ + rest) == name,
{
    reveal_strlit("://");
    reveal_strlit("://[");
    reveal_strlit("]");
    let url = scheme + "://["@ + name + "]"@ + rest;
    let n = scheme.len() as int;
    assert(url.subrange(n, n + 3) =~= "://"@);
    assert forall|i: int| 0 <= i < n implies !text::occurs_at(url, "://"@, i) by {
        if text::occurs_at(url, "://"@, i) {
            assert(url.subrange(i, i + 3)[0] == ':');
            assert(scheme[i] == ':');
        }
    }
    lemma_first_place(url, "://"@, 0, n);
    let after = url.skip(n + 3);
    let end = name.len() as int + 1;
    assert(after =~= seq!['['] + name + seq![']'] + rest);
    text::lemma_first_of(after, '/');
    let k = text::first_of(after, '/');
    if k <= end {
        if 0 < k < end {
            assert(name[k - 1] == '/');
        }
        assert(after[k] == '/');
        assert(false);
    }
    let authority = after.take(k);
    assert(authority[0] == '[');
    let inner = authority.skip(1);
    assert forall|i: int| 0 <= i < name.len() implies #[trigger] inner[i] != ']' by {
        assert(name[i] == inner[i]);
        assert(name.contains(name[i]));
    }
    assert(inner[name.len() as int] == ']');
    text::lemma_first_of_unique(inner, ']', name.len() as int);
    assert(inner.take(name.len() as int) =~= name);
}

proof fn lemma_first_place(s: Seq<char>, p: Seq<char>, from: int, n: int)
    requires
        0 <= from <= n < s.len(),
        text::occurs_at(s, p, n),
        forall|i: int| from <= i < n ==> !text::occurs_at(s, p, i),
    ensures
        crate::hyprland::first_place(s, p, from) == n,
    decreases n - from,
{
    if from < n {
        lemma_first_place(s, p, from + 1, n);
    }
}

/// A host that is an IPv4 address is its own, one that is an IPv6 address has none, and
/// a name has the first IPv4 address that the resolver gave.
pub proof fn law_first_ipv4_is_taken(
    host: Seq<char>,
    resolved: Seq<Ip>,
    n: int,
    a: u8,
    b: u8,
    c: u8,
    d: u8,
)
    requires
        0 <= n <= resolved.len(),
        forall|i: int| 0 <= i < n ==> #[trigger] resolved[i] is V6,
        n < resolved.len() ==> resolved[n] == Ip::V4(a, b, c, d),
    ensures
        crate::net_addr::ip_of(host) is None ==> ipv4_of(host, resolved) == (if n < resolved.len() {
            Some(
                text::dec(a as nat) + "."@ + text::dec(b as nat) + "."@ + text::dec(c as nat) + "."@
                    + text::dec(d as nat),
            )
        } else {
            None
        }),
        crate::net_addr::ip_of(host) matches Some(ip) ==> (ip is V4 ==> ipv4_of(host, resolved)
            == Some(host)) && (ip is V6 ==> ipv4_of(host, resolved) is None),
    decreases n,
{
    if n > 0 {
        assert(resolved[0] is V6);
        let t = resolved.skip(1);
        assert forall|i: int| 0 <= i < n - 1 implies #[trigger] t[i] is V6 by {
            assert(t[i] == resolved[i + 1]);
        }
        law_first_ipv4_is_taken(host, t, n - 1, a, b, c, d);
    }
}

/// A reply says `ok` and the address exactly if the packet went out, and otherwise
/// `error` and why.
pub proof fn law_replies_say_what_came_of_it(outcome: WolOutcome)
    ensures
        ({
            let v = wol_view(outcome);
            let status = crate::json::member(v, "status"@);
            let reason = crate::json::member(v, "reason"@);
            &&& outcome matches WolOutcome::Sent(mac) ==> {
                &&& status == Some(crate::json::JsonView::Text("ok"@))
                &&& crate::json::member(v, "mac"@) matches Some(
                    crate::json::JsonView::Text(t),
                ) && mac_of(t) == Some(mac.octets())
                &&& reason is None
            }
            &&& !(outcome is Sent) ==> {
                &&& status == Some(crate::json::JsonView::Text("error"@))
                &&& crate::json::member(v, "mac"@) is None
            }
            &&& outcome is NoHost ==> reason == Some(crate::json::JsonView::Text("no-host"@))
            &&& outcome is NoIp ==> reason == Some(crate::json::JsonView::Text("no-ip"@))
            &&& outcome is NoMac ==> reason == Some(crate::json::JsonView::Text("no-mac"@))
            &&& outcome is SendFailed ==> reason == Some(
                crate::json::JsonView::Text("send-failed"@),
            )
        }),
{
    reveal_strlit("status");
    reveal_strlit("reason");
    reveal_strlit("mac");
    assert("status"@.len() == 6 && "reason"@.len() == 6 && "mac"@.len() == 3);
    assert("status"@[0] == 's' && "reason"@[0] == 'r');
    assert("status"@ != "reason"@);
    let v = wol_view(outcome);
    let e = v->Object_0;
    reveal_with_fuel(crate::json::entry_at, 4);
    assert(e.skip(1)[0] == e[1]);
    assert(e.skip(1).skip(1).len() == 0);
    if let WolOutcome::Sent(mac) = outcome {
        law_canonical_reads_back(mac.octets());
    }
}

} // verus!
