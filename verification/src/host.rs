//! The credential of the service on the gaming host.

use crate::auth::ct_eq_str;
use crate::net_addr;
use crate::net_addr::parse_ip;
use crate::text;
use ring::rand::SecureRandom;
use vstd::prelude::*;

verus! {

/// The port that the service listens on unless it is told otherwise.
pub const DEFAULT_PORT: u16 = 47995;

/// Whether the service listens to its own machine alone. Only an address can say
/// so; a name is taken to be open to others.
pub open spec fn local_only(bind: Seq<char>) -> bool {
    match net_addr::ip_of(bind) {
        Some(ip) => net_addr::is_loopback(ip),
        None => false,
    }
}

/// Whether the service listens to its own machine alone.
pub fn is_loopback_bind(bind: &str) -> (r: bool)
    ensures
        r == local_only(bind@),
{
    match parse_ip(bind) {
        Some(ip) => ip.loopback(),
        None => false,
    }
}

/// Where the credential of the service comes from.
#[derive(Debug, Clone, PartialEq, Eq)]
pub enum TokenChoice {
    /// The environment gives it.
    Given(String),
    /// It is made up.
    Generated,
    /// There is none, and the service does not start.
    Refused(String),
}

/// What is said when the service would be open to others.
pub open spec fn refusal(bind: Seq<char>, port: u16) -> Seq<char> {
    "refusing to start: TV_SHELL_HOST_TOKEN is unset and TV_SHELL_HOST_BIND="@ + text::debugged(bind)
        + " (port "@ + text::dec(port as nat)
        + ") is not loopback-only — an unauthenticated :"@ + text::dec(port as nat)
        + " on the LAN would let anyone reachable list, launch, quit, or SUSPEND this machine. Set TV_SHELL_HOST_TOKEN to a stable bearer token (see docs/HOST_SETUP.md), or set TV_SHELL_HOST_BIND=127.0.0.1 for a loopback-only dev run."@
}

/// The credential that the environment gives, if it gives one.
pub open spec fn given(env_token: Option<String>) -> Option<Seq<char>> {
    match env_token {
        Some(t) => if text::trimmed(t@).len() > 0 {
            Some(text::trimmed(t@))
        } else {
            None
        },
        None => None,
    }
}

/// Where the credential of the service comes from: the environment, unless what it
/// gives is blank; otherwise one is made up, where nobody but the machine itself
/// can reach the service.
pub fn choose_token(bind: &str, port: u16, env_token: Option<String>) -> (r: TokenChoice)
    ensures
        match given(env_token) {
            Some(t) => r matches TokenChoice::Given(s) && s@ == t,
            None => if local_only(bind@) {
                r is Generated
            } else {
                r matches TokenChoice::Refused(m) && m@ == refusal(bind@, port)
            },
        },
{
    if let Some(t) = env_token {
        let t = text::trim(t.as_str());
        if !t.as_str().is_empty() {
            return TokenChoice::Given(t);
        }
    }
    if is_loopback_bind(bind) {
        return TokenChoice::Generated;
    }
    let mut m =
        "refusing to start: TV_SHELL_HOST_TOKEN is unset and TV_SHELL_HOST_BIND=".to_owned();
    m.push_str(text::debug_text(bind).as_str());
    m.push_str(" (port ");
    m.push_str(text::decimal(port as u64).as_str());
    m.push_str(") is not loopback-only — an unauthenticated :");
    m.push_str(text::decimal(port as u64).as_str());
    m.push_str(
        " on the LAN would let anyone reachable list, launch, quit, or SUSPEND this machine. Set TV_SHELL_HOST_TOKEN to a stable bearer token (see docs/HOST_SETUP.md), or set TV_SHELL_HOST_BIND=127.0.0.1 for a loopback-only dev run.",
    );
    TokenChoice::Refused(m)
}

/// `ring::rand::SystemRandom` asked for 32 random bytes through
/// `ring::rand::SecureRandom::fill`. The system decides what they are and whether
/// there are any, so nothing is said of the result.
#[verifier::external_body]
fn random_bytes() -> (r: Option<[u8; 32]>) {
    let mut bytes = [0u8; 32];
    ring::rand::SystemRandom::new().fill(&mut bytes).ok().map(|_| bytes)
}

/// Bytes in hexadecimal, two digits each, in lower case.
pub open spec fn hex_text(bytes: Seq<u8>) -> Seq<char>
    decreases bytes.len(),
{
    if bytes.len() == 0 {
        Seq::empty()
    } else {
        hex_text(bytes.drop_last()) + crate::wol::hex2(bytes.last())
    }
}

/// Bytes as a credential: in hexadecimal.
pub fn hex_token(bytes: &[u8; 32]) -> (r: String)
    ensures
        r@ == hex_text(bytes@),
        r@.len() == 64,
        forall|i: int| 0 <= i < r@.len() ==> is_hex_digit(#[trigger] r@[i]),
{
    let mut out = String::new();
    let ghost all = bytes@;
    let mut i: usize = 0;
    assert(all.take(0) =~= Seq::empty());
    while i < 32
        invariant
            i <= 32,
            all == bytes@,
            all.len() == 32,
            out@ == hex_text(all.take(i as int)),
            out@.len() == 2 * i,
            forall|k: int| 0 <= k < out@.len() ==> is_hex_digit(#[trigger] out@[k]),
        decreases 32 - i,
    {
        let b: u8 = bytes[i];
        let ghost before = out@;
        let ghost next = all.take(i + 1);
        assert(next.drop_last() =~= all.take(i as int));
        assert(next.last() == b);
        out.push(text::digit_of(b / 16));
        out.push(text::digit_of(b % 16));
        assert(out@ =~= before + crate::wol::hex2(b));
        i += 1;
    }
    assert(all.take(32) =~= all);
    out
}

/// Whether a character is a digit of lower-case hexadecimal.
pub open spec fn is_hex_digit(c: char) -> bool {
    '0' <= c <= '9' || 'a' <= c <= 'f'
}

/// Makes up a credential. Which one is left to the system; it fails if the system
/// has no random bytes.
pub fn generate_token() -> (r: Result<String, String>)
    ensures
        r matches Ok(t) ==> exists|bytes: Seq<u8>| bytes.len() == 32 && t@ == #[trigger] hex_text(
            bytes,
        ),
        r matches Ok(t) ==> t@.len() == 64 && (forall|i: int|
            0 <= i < t@.len() ==> is_hex_digit(#[trigger] t@[i])),
        r matches Err(e) ==> e@ == "failed to read from the OS CSPRNG"@,
{
    match random_bytes() {
        Some(bytes) => {
            let t = hex_token(&bytes);
            assert(t@ == hex_text(bytes@));
            Ok(t)
        },
        None => Err("failed to read from the OS CSPRNG".to_owned()),
    }
}

/// The credential of the service. It is never empty, and only a service that
/// nobody else can reach goes without one from the environment.
pub fn resolve_token(bind: &str, port: u16, env_token: Option<String>) -> (r: Result<
    String,
    String,
>)
    ensures
        match given(env_token) {
            Some(t) => r matches Ok(s) && s@ == t,
            None => if local_only(bind@) {
                match r {
                    Ok(t) => t@.len() == 64 && (forall|i: int|
                        0 <= i < t@.len() ==> is_hex_digit(#[trigger] t@[i])),
                    Err(e) => e@ == "failed to read from the OS CSPRNG"@,
                }
            } else {
                r matches Err(m) && m@ == refusal(bind@, port)
            },
        },
        r matches Ok(t) ==> t@.len() > 0,
{
    match choose_token(bind, port, env_token) {
        TokenChoice::Given(t) => Ok(t),
        TokenChoice::Generated => generate_token(),
        TokenChoice::Refused(m) => Err(m),
    }
}

/// The credential of a request, given its `Authorization` header: what follows
/// `Bearer ` to the letter, else nothing.
pub open spec fn shown(authorization: Option<&str>) -> Seq<char> {
    match authorization {
        Some(v) => match text::after_prefix(v@, "Bearer "@) {
            Some(t) => t,
            None => Seq::empty(),
        },
        None => Seq::empty(),
    }
}

/// Whether a request may proceed: it shows the credential to the letter.
pub fn authorize(token: &str, authorization: Option<&str>) -> (r: bool)
    ensures
        r == (shown(authorization) == token@),
{
    let presented = match authorization {
        Some(v) => match text::strip_prefix(v, "Bearer ") {
            Some(t) => t,
            None => String::new(),
        },
        None => String::new(),
    };
    ct_eq_str(presented.as_str(), token)
}

/// Without the word `Bearer` and the credential nothing gets in, as long as there
/// is a credential.
pub proof fn law_nothing_shown_nothing_granted(token: Seq<char>, authorization: Option<&str>)
    requires
        token.len() > 0,
        shown(authorization) == token,
    ensures
        authorization is Some,
        authorization->Some_0@ == "Bearer "@ + token,
{
    let v = authorization->Some_0@;
    let p = "Bearer "@;
    assert(v =~= p + text::after_prefix(v, p)->Some_0);
}

/// The service listens to its own machine alone exactly where it is told so by an address
/// of that machine: one that starts with 127 in version 4, the one in version 6. What is no
/// address is a name, and open to others.
pub proof fn law_only_addresses_of_the_machine_are_local(
    a: u8,
    b: u8,
    c: u8,
    d: u8,
    g: Seq<u16>,
    bind: Seq<char>,
)
    ensures
        local_only(net_addr::v4_text(a, b, c, d)) <==> a == 127,
        net_addr::ip_of(bind) == Some(net_addr::IpView::V6(g)) ==> (local_only(bind) <==> g.len()
            == 8 && g[7] == 1 && forall|i: int| 0 <= i < 7 ==> #[trigger] g[i] == 0),
        net_addr::ip_of(bind) is None ==> !local_only(bind),
{
    net_addr::law_v4_reads_back(a, b, c, d);
    net_addr::law_loopback_is_the_machine_itself(net_addr::IpView::V4(a, b, c, d));
    net_addr::law_loopback_is_the_machine_itself(net_addr::IpView::V6(g));
}

/// A credential of the environment is taken without the white space around it, and a blank
/// one is none.
pub proof fn law_blank_credentials_are_none(token: String)
    ensures
        given(None) is None,
        text::trimmed(token@).len() == 0 ==> given(Some(token)) is None,
        text::trimmed(token@).len() > 0 ==> given(Some(token)) == Some(text::trimmed(token@)),
{
}

/// A request shows what follows `Bearer ` to the letter, and nothing under another word.
pub proof fn law_requests_show_what_follows(v: &str, token: Seq<char>)
    ensures
        v@ == "Bearer "@ + token ==> shown(Some(v)) == token,
        shown(Some(v)).len() > 0 ==> v@ == "Bearer "@ + shown(Some(v)),
        shown(None).len() == 0,
{
    reveal_strlit("Bearer ");
    let p = "Bearer "@;
    if v@ == p + token {
        assert(v@.subrange(0, 7) =~= p);
        assert(v@.skip(7) =~= token);
    }
    if text::occurs_at(v@, p, 0) {
        assert(v@.subrange(0, 7) == p);
        assert(v@ =~= v@.subrange(0, 7) + v@.skip(7));
    }
}

/// Bytes that are written in hexadecimal differ where the bytes do: the digits of a byte
/// stand where the byte stood.
pub proof fn law_every_byte_is_written(bytes: Seq<u8>, i: int)
    requires
        0 <= i < bytes.len(),
    ensures
        hex_text(bytes).len() == 2 * bytes.len(),
        text::digit_value(hex_text(bytes)[2 * i], 16) == bytes[i] / 16,
        text::digit_value(hex_text(bytes)[2 * i + 1], 16) == bytes[i] % 16,
    decreases bytes.len(),
{
    let rest = bytes.drop_last();
    lemma_hex_len(rest);
    let b = bytes.last();
    if i < rest.len() {
        law_every_byte_is_written(rest, i);
        assert(hex_text(bytes)[2 * i] == hex_text(rest)[2 * i]);
        assert(hex_text(bytes)[2 * i + 1] == hex_text(rest)[2 * i + 1]);
    } else {
        let n = hex_text(rest).len() as int;
        assert(hex_text(bytes)[n] == crate::wol::hex2(b)[0]);
        assert(hex_text(bytes)[n + 1] == crate::wol::hex2(b)[1]);
    }
}

proof fn lemma_hex_len(bytes: Seq<u8>)
    ensures
        hex_text(bytes).len() == 2 * bytes.len(),
    decreases bytes.len(),
{
    if bytes.len() > 0 {
        lemma_hex_len(bytes.drop_last());
    }
}

/// What is said of a service that does not start names what it was told to listen at, twice
/// the port, and the setting that gives it a credential.
pub proof fn law_refusals_name_the_bind(bind: Seq<char>, port: u16)
    ensures
        ({
            let p = text::dec(port as nat);
            let m = refusal(bind, port);
            let head =
                "refusing to start: TV_SHELL_HOST_TOKEN is unset and TV_SHELL_HOST_BIND="@
                + text::debugged(bind) + " (port "@ + p;
            &&& m.take(head.len() as int) == head
            &&& text::has_text(m, "an unauthenticated :"@ + p + " on the LAN"@)
        }),
{
    let p = text::dec(port as nat);
    let m = refusal(bind, port);
    let head = "refusing to start: TV_SHELL_HOST_TOKEN is unset and TV_SHELL_HOST_BIND="@
        + text::debugged(bind) + " (port "@ + p;
    let mid = ") is not loopback-only — an unauthenticated :"@;
    let last =
        " on the LAN would let anyone reachable list, launch, quit, or SUSPEND this machine. Set TV_SHELL_HOST_TOKEN to a stable bearer token (see docs/HOST_SETUP.md), or set TV_SHELL_HOST_BIND=127.0.0.1 for a loopback-only dev run."@;
    reveal_strlit(") is not loopback-only — an unauthenticated :");
    reveal_strlit(
        " on the LAN would let anyone reachable list, launch, quit, or SUSPEND this machine. Set TV_SHELL_HOST_TOKEN to a stable bearer token (see docs/HOST_SETUP.md), or set TV_SHELL_HOST_BIND=127.0.0.1 for a loopback-only dev run.",
    );
    reveal_strlit("an unauthenticated :");
    reveal_strlit(" on the LAN");
    assert(m =~= head + mid + p + last);
    assert(m.take(head.len() as int) =~= head);
    let w = "an unauthenticated :"@ + p + " on the LAN"@;
    let k = (head.len() + mid.len() - 20) as int;
    assert(m.subrange(k, k + w.len()) =~= w);
    assert(text::occurs_at(m, w, k));
}

} // verus!
