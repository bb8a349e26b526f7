//! The configuration of the panel: what is resolved from it, and when the panel
//! refuses to start.

use crate::net_addr;
use crate::net_addr::{parse_socket, Ip, SocketAddress};
use crate::text;
use vstd::prelude::*;

verus! {

/// Where the panel listens unless it is told otherwise.
pub const DEFAULT_PANEL_BIND: &'static str = "127.0.0.1:8091";

/// The name that units and tags start with.
pub const SLUG: &'static str = "tv-shell";

/// The section `[panel]`.
#[derive(Debug, Clone, PartialEq, Eq)]
pub struct PanelConfig {
    pub enabled: bool,
    pub bind: String,
    pub token_file: Option<String>,
    /// Whether routes that are as good as being root are there.
    pub allow_dangerous: bool,
}

impl Default for PanelConfig {
    fn default() -> (r: Self)
        ensures
            r.enabled,
            r.bind@ == DEFAULT_PANEL_BIND@,
            r.token_file is None,
            !r.allow_dangerous,
    {
        PanelConfig {
            enabled: true,
            bind: DEFAULT_PANEL_BIND.to_owned(),
            token_file: None,
            allow_dangerous: false,
        }
    }
}

/// The section `[dev]`.
#[derive(Debug, Clone, PartialEq, Eq)]
pub struct DevSection {
    /// Whether the panel may listen to others without a credential.
    pub allow_insecure_lan: bool,
}

impl Default for DevSection {
    fn default() -> (r: Self)
        ensures
            !r.allow_insecure_lan,
    {
        DevSection { allow_insecure_lan: false }
    }
}

/// The section `[http]`.
#[derive(Debug, Clone, PartialEq, Eq)]
pub struct HttpSection {
    pub bind: Option<String>,
    pub token_file: Option<String>,
}

impl Default for HttpSection {
    fn default() -> (r: Self)
        ensures
            r.bind is None,
            r.token_file is None,
    {
        HttpSection { bind: None, token_file: None }
    }
}

/// The sections that the panel reads.
#[derive(Debug, Clone, PartialEq, Eq)]
pub struct RawConfig {
    pub panel: PanelConfig,
    pub http: HttpSection,
    pub dev: DevSection,
}

impl Default for RawConfig {
    fn default() -> (r: Self)
        ensures
            r.panel.enabled,
            r.panel.bind@ == DEFAULT_PANEL_BIND@,
            r.panel.token_file is None,
            !r.panel.allow_dangerous,
            r.http.bind is None,
            r.http.token_file is None,
            !r.dev.allow_insecure_lan,
    {
        RawConfig {
            panel: PanelConfig::default(),
            http: HttpSection::default(),
            dev: DevSection::default(),
        }
    }
}

/// The configuration, resolved.
#[derive(Debug, Clone, PartialEq, Eq)]
pub struct AppConfig {
    pub enabled: bool,
    /// Where the panel listens.
    pub panel_bind: SocketAddress,
    /// As it was written.
    pub panel_bind_raw: String,
    /// The file with the credential; that there is one turns authentication on.
    pub panel_token_file: Option<String>,
    /// The credential.
    pub panel_token: Option<String>,
    pub allow_dangerous: bool,
    pub allow_insecure_lan: bool,
    /// Where the daemon answers HTTP, if it does.
    pub http_bridge_base: Option<String>,
    /// The credential for it.
    pub http_token: Option<String>,
}

/// Where the panel listens unless it is told otherwise.
pub open spec fn default_address() -> net_addr::SocketView {
    net_addr::SocketView { ip: net_addr::IpView::V4(127, 0, 0, 1), scope: 0, port: 8091 }
}

fn default_bind() -> (r: SocketAddress)
    ensures
        r@ == default_address(),
        r.wf(),
{
    SocketAddress { ip: Ip::V4(127, 0, 0, 1), scope: 0, port: 8091 }
}

/// The address that is meant by default is the one that is written as default.
pub proof fn law_default_is_what_it_says()
    ensures
        net_addr::socket_of(DEFAULT_PANEL_BIND@) == Some(default_address()),
{
    let s = DEFAULT_PANEL_BIND@;
    reveal_strlit("127.0.0.1:8091");
    text::lemma_first_of_unique(s, ':', 9);
    let ip = s.take(9);
    let port = s.skip(10);
    assert(text::cut_at(s, ':') == Some((ip, port)));
    let a = seq!['1', '2', '7'];
    let z = seq!['0'];
    let o = seq!['1'];
    text::lemma_first_of_unique(ip, '.', 3);
    let r1 = ip.skip(4);
    text::lemma_first_of_unique(r1, '.', 1);
    let r2 = r1.skip(2);
    text::lemma_first_of_unique(r2, '.', 1);
    let r3 = r2.skip(2);
    text::lemma_first_of_unique(r3, '.', 1);
    assert(text::split_on(r3, '.') =~= seq![r3]);
    assert(text::split_on(r2, '.') =~= seq![r2.take(1), r3]);
    assert(text::split_on(r1, '.') =~= seq![r1.take(1), r2.take(1), r3]);
    assert(text::split_on(ip, '.') =~= seq![ip.take(3), r1.take(1), r2.take(1), r3]);
    assert(ip.take(3) =~= a);
    assert(r1.take(1) =~= z);
    assert(r2.take(1) =~= z);
    assert(r3 =~= o);
    assert(port =~= seq!['8', '0', '9', '1']);
    assert(a.drop_last() =~= seq!['1', '2']);
    assert(seq!['1', '2'].drop_last() =~= seq!['1']);
    assert(seq!['1'].drop_last() =~= Seq::<char>::empty());
    assert(seq!['0'].drop_last() =~= Seq::<char>::empty());
    assert(seq!['8', '0', '9', '1'].drop_last() =~= seq!['8', '0', '9']);
    assert(seq!['8', '0', '9'].drop_last() =~= seq!['8', '0']);
    assert(seq!['8', '0'].drop_last() =~= seq!['8']);
    assert(seq!['8'].drop_last() =~= Seq::<char>::empty());
    assert(text::digits_value(Seq::<char>::empty(), 10) == 0);
    assert(text::digits_value(seq!['1'], 10) == 1);
    assert(text::digits_value(seq!['1', '2'], 10) == 12);
    assert(text::digits_value(a, 10) == 127);
    assert(text::digits_value(z, 10) == 0);
    assert(text::digits_value(seq!['8'], 10) == 8);
    assert(text::digits_value(seq!['8', '0'], 10) == 80);
    assert(text::digits_value(seq!['8', '0', '9'], 10) == 809);
    assert(text::digits_value(port, 10) == 8091);
    assert(net_addr::octet(a) == Some(127nat));
    assert(net_addr::octet(z) == Some(0nat));
    assert(net_addr::octet(o) == Some(1nat));
    assert(net_addr::long_number(port, u16::MAX as nat) == Some(8091nat));
}

impl Default for AppConfig {
    fn default() -> (r: Self)
        ensures
            r.enabled,
            r.panel_bind@ == default_address(),
            r.panel_bind_raw@ == DEFAULT_PANEL_BIND@,
            r.panel_token_file is None,
            r.panel_token is None,
            !r.allow_dangerous,
            !r.allow_insecure_lan,
            r.http_bridge_base is None,
            r.http_token is None,
    {
        let panel = PanelConfig::default();
        AppConfig {
            enabled: panel.enabled,
            panel_bind: default_bind(),
            panel_bind_raw: panel.bind,
            panel_token_file: panel.token_file,
            panel_token: None,
            allow_dangerous: panel.allow_dangerous,
            allow_insecure_lan: false,
            http_bridge_base: None,
            http_token: None,
        }
    }
}

/// What is said when the panel would be open to others at `addr`.
pub open spec fn refusal(addr: net_addr::SocketView) -> Seq<char> {
    "refusing to start: web control panel is bound to non-loopback "@ + net_addr::socket_text(addr)
        + " with auth effectively disabled (no token) — every panel route can restart units, rewrite config.toml, upload files and (with allow_dangerous) deploy, reboot or run a full system update. Set [panel].token_file (0600, under ~/.config/tv-shell/), bind to 127.0.0.1, or explicitly opt in with [dev].allow_insecure_lan = true."@
}

impl AppConfig {
    /// Whether a request must show a credential.
    pub open spec fn auth_on(&self) -> bool {
        self.panel_token_file is Some
    }

    /// Whether a request must show a credential. That a file is configured decides,
    /// not that a credential was read from it.
    pub fn auth_enabled(&self) -> (r: bool)
        ensures
            r == self.auth_on(),
    {
        self.panel_token_file.is_some()
    }

    /// Whether others could use the panel without a credential.
    pub open spec fn exposed(&self) -> bool {
        !net_addr::is_loopback(self.panel_bind@.ip) && (!self.auth_on() || self.panel_token is None)
    }

    /// Refuses a panel that others could use without a credential, unless the
    /// operator allows just that.
    pub fn validate(&self) -> (r: Result<(), String>)
        requires
            self.panel_bind.wf(),
        ensures
            r is Err <==> self.exposed() && !self.allow_insecure_lan,
            r is Err ==> r->Err_0@ == refusal(self.panel_bind@),
    {
        let disabled = !self.auth_enabled() || self.panel_token.is_none();
        if !self.panel_bind.ip.loopback() && disabled && !self.allow_insecure_lan {
            let mut m =
                "refusing to start: web control panel is bound to non-loopback ".to_owned();
            m.push_str(self.panel_bind.to_text().as_str());
            m.push_str(
                " with auth effectively disabled (no token) — every panel route can restart units, rewrite config.toml, upload files and (with allow_dangerous) deploy, reboot or run a full system update. Set [panel].token_file (0600, under ~/.config/tv-shell/), bind to 127.0.0.1, or explicitly opt in with [dev].allow_insecure_lan = true.",
            );
            return Err(m);
        }
        Ok(())
    }
}

/// The address that a configuration names: the default one where it names none.
pub open spec fn bind_of(raw: RawConfig) -> net_addr::SocketView {
    match net_addr::socket_of(raw.panel.bind@) {
        Some(a) => a,
        None => default_address(),
    }
}

/// Whether the credential of the panel is to be read.
pub open spec fn wants_token(raw: RawConfig) -> bool {
    raw.panel.enabled && raw.panel.token_file is Some
}

/// The file from which the credential of the panel is to be read, if any.
pub fn panel_token_path(raw: &RawConfig) -> (r: Option<&str>)
    ensures
        r is Some <==> wants_token(*raw),
        r matches Some(p) ==> p@ == raw.panel.token_file->Some_0@,
{
    if !raw.panel.enabled {
        return None;
    }
    match &raw.panel.token_file {
        Some(p) => Some(p.as_str()),
        None => None,
    }
}

/// The credential of the panel, where it was to be read and could be.
pub open spec fn token_of(raw: RawConfig, panel_read: Option<Result<String, String>>) -> Option<
    String,
> {
    match panel_read {
        Some(Ok(t)) => if wants_token(raw) {
            Some(t)
        } else {
            None
        },
        _ => None,
    }
}

/// Where the daemon answers HTTP; an empty address is none.
pub open spec fn bridge_of(raw: RawConfig) -> Option<Seq<char>> {
    match raw.http.bind {
        Some(b) => if b@.len() == 0 {
            None
        } else {
            Some("http://"@ + b@)
        },
        None => None,
    }
}

/// Whether others could use the panel without a credential.
pub open spec fn open_to_others(raw: RawConfig, panel_read: Option<Result<String, String>>) -> bool {
    raw.panel.enabled && !net_addr::is_loopback(bind_of(raw).ip) && token_of(
        raw,
        panel_read,
    ) is None && !raw.dev.allow_insecure_lan
}

/// Why the credential that a configuration names cannot be used, if it cannot.
pub open spec fn unread(raw: RawConfig, panel_read: Option<Result<String, String>>) -> Option<
    Seq<char>,
> {
    match panel_read {
        Some(Ok(_)) => None,
        Some(Err(e)) => if wants_token(raw) {
            Some(e@)
        } else {
            None
        },
        None => if wants_token(raw) {
            Some("panel.token_file was not read"@)
        } else {
            None
        },
    }
}

/// Whether a panel starts from a configuration.
pub open spec fn starts(raw: RawConfig, panel_read: Option<Result<String, String>>) -> bool {
    unread(raw, panel_read) is None && !open_to_others(raw, panel_read)
}

/// Resolves a configuration. `panel_read` is what reading the credential of the
/// panel gave, where it was read, and `http_read` the credential for the daemon.
/// A panel that serves is refused if the credential that it names was not read or
/// could not be, or if others could use it without one.
pub fn resolve(
    raw: RawConfig,
    panel_read: Option<Result<String, String>>,
    http_read: Option<String>,
) -> (r: Result<AppConfig, String>)
    ensures
        r is Ok <==> starts(raw, panel_read),
        r matches Err(e) ==> e@ == (match unread(raw, panel_read) {
            Some(why) => why,
            None => refusal(bind_of(raw)),
        }),
        r matches Ok(cfg) ==> {
            &&& cfg.enabled == raw.panel.enabled
            &&& cfg.panel_bind@ == bind_of(raw)
            &&& cfg.panel_bind.wf()
            &&& cfg.panel_bind_raw == raw.panel.bind
            &&& cfg.panel_token_file == raw.panel.token_file
            &&& cfg.panel_token == token_of(raw, panel_read)
            &&& cfg.allow_dangerous == raw.panel.allow_dangerous
            &&& cfg.allow_insecure_lan == raw.dev.allow_insecure_lan
            &&& crate::json::text_view(cfg.http_bridge_base) == bridge_of(raw)
            &&& cfg.http_token == http_read
        },
        r matches Ok(cfg) ==> (cfg.enabled && cfg.exposed() ==> cfg.allow_insecure_lan),
{
    let wanted = panel_token_path(&raw).is_some();
    let panel_bind = match parse_socket(raw.panel.bind.as_str()) {
        Some(a) => a,
        None => default_bind(),
    };
    let http_bridge_base = match &raw.http.bind {
        Some(b) => if b.as_str().is_empty() {
            None
        } else {
            let mut base = "http://".to_owned();
            base.push_str(b.as_str());
            Some(base)
        },
        None => None,
    };
    let panel_token = match panel_read {
        Some(Ok(t)) => if wanted {
            Some(t)
        } else {
            None
        },
        Some(Err(e)) => {
            if wanted {
                return Err(e);
            }
            None
        },
        None => {
            if wanted {
                return Err("panel.token_file was not read".to_owned());
            }
            None
        },
    };
    let cfg = AppConfig {
        enabled: raw.panel.enabled,
        panel_bind,
        panel_bind_raw: raw.panel.bind,
        panel_token_file: raw.panel.token_file,
        panel_token,
        allow_dangerous: raw.panel.allow_dangerous,
        allow_insecure_lan: raw.dev.allow_insecure_lan,
        http_bridge_base,
        http_token: http_read,
    };
    if cfg.enabled {
        match cfg.validate() {
            Ok(_) => {},
            Err(e) => {
                return Err(e);
            },
        }
    }
    Ok(cfg)
}

/// A panel that others can reach starts only with a credential, unless the operator
/// allows otherwise.
pub proof fn law_reachable_panel_has_credential(
    raw: RawConfig,
    panel_read: Option<Result<String, String>>,
)
    requires
        starts(raw, panel_read),
        raw.panel.enabled,
        !net_addr::is_loopback(bind_of(raw).ip),
        !raw.dev.allow_insecure_lan,
    ensures
        token_of(raw, panel_read) is Some,
{
}

/// A panel that serves and names a file for its credential uses what stands in it;
/// it does not serve without a credential because the file was not read.
pub proof fn law_named_credential_is_used(
    raw: RawConfig,
    panel_read: Option<Result<String, String>>,
)
    requires
        starts(raw, panel_read),
        wants_token(raw),
    ensures
        panel_read is Some && panel_read->Some_0 is Ok,
        token_of(raw, panel_read) == Some(panel_read->Some_0->Ok_0),
{
}

// ---------------------------------------------------------------------------
// The file with the credential
// ---------------------------------------------------------------------------

/// Whether a character may stand in the value of a cookie.
pub open spec fn cookie_octet(c: char) -> bool {
    let n = c as int;
    n == 0x21 || 0x23 <= n <= 0x2b || 0x2d <= n <= 0x3a || 0x3c <= n <= 0x5b || 0x5d <= n <= 0x7e
}

/// Whether a character may stand in the value of a cookie: printable ASCII without
/// space, quote, comma, semicolon and backslash.
pub fn is_cookie_octet(c: char) -> (r: bool)
    ensures
        r == cookie_octet(c),
{
    let n: u32 = c as u32;
    n == 0x21 || (0x23 <= n && n <= 0x2b) || (0x2d <= n && n <= 0x3a) || (0x3c <= n && n <= 0x5b)
        || (0x5d <= n && n <= 0x7e)
}

/// Where the first character stands that may not stand in a cookie, or the length.
pub open spec fn bad_at(s: Seq<char>) -> int
    decreases s.len(),
{
    if s.len() == 0 || !cookie_octet(s[0]) {
        0
    } else {
        1 + bad_at(s.skip(1))
    }
}

/// Whether all characters may stand in a cookie.
pub open spec fn cookie_safe(s: Seq<char>) -> bool {
    forall|i: int| 0 <= i < s.len() ==> cookie_octet(#[trigger] s[i])
}

/// A number in octal.
pub open spec fn octal(n: nat) -> Seq<char>
    decreases n,
{
    if n < 8 {
        seq![text::digit_char(n as int)]
    } else {
        octal(n / 8).push(text::digit_char((n % 8) as int))
    }
}

fn in_octal(n: u32) -> (r: String)
    ensures
        r@ == octal(n as nat),
    decreases n,
{
    let mut out = if n < 8 {
        String::new()
    } else {
        in_octal(n / 8)
    };
    out.push(text::digit_of((n % 8) as u8));
    assert(n < 8 ==> out@ =~= seq![text::digit_char(n as int)]);
    out
}

/// What a message about a file with a credential starts with.
pub open spec fn about(field: Seq<char>, path: Seq<char>) -> Seq<char> {
    "config: "@ + field + " "@ + path
}

fn about_file(field: &str, path: &str) -> (r: String)
    ensures
        r@ == about(field@, path@),
{
    let mut m = "config: ".to_owned();
    m.push_str(field);
    m.push_str(" ");
    m.push_str(path);
    m
}

/// Refuses a file that others than its owner have access to, given its mode.
pub fn ensure_owner_only(mode: u32, path: &str, field: &str) -> (r: Result<(), String>)
    ensures
        r is Ok <==> mode & 0o077 == 0,
        r is Err ==> r->Err_0@ == about(field@, path@) + " is group/other-accessible (mode "@ + octal(
            (mode & 0o7777) as nat,
        ) + "); refusing to start — the panel's credential must be private. Fix: chmod 600 "@ + path@,
{
    if mode & 0o077 != 0 {
        let mut m = about_file(field, path);
        m.push_str(" is group/other-accessible (mode ");
        m.push_str(in_octal(mode & 0o7777).as_str());
        m.push_str(
            "); refusing to start — the panel's credential must be private. Fix: chmod 600 ",
        );
        m.push_str(path);
        return Err(m);
    }
    Ok(())
}

/// A file with a credential, as it was found.
#[derive(Debug, PartialEq, Eq)]
pub struct TokenFile {
    /// Its mode, or why that could not be found; nothing where files have no mode.
    pub mode: Option<Result<u32, String>>,
    /// What it holds, or why that could not be read.
    pub content: Result<String, String>,
}

/// What is said of a credential that is empty.
pub open spec fn empty_text(field: Seq<char>, path: Seq<char>) -> Seq<char> {
    about(field, path)
        + " is empty; refusing to start — with a token file configured the panel authenticates every route, so an empty token would reject every request AND every /login submission, locking the recovery panel out. Fix: write a token (openssl rand -hex 32 > "@
        + path + ") or remove [panel].token_file to run unauthenticated on a loopback bind."@
}

/// What is said of a credential that a cookie cannot carry.
pub open spec fn unsafe_text(field: Seq<char>, path: Seq<char>, bad: char) -> Seq<char> {
    about(field, path) + " contains "@ + text::debugged_char(bad)
        + ", which is not valid in a cookie value; refusing to start — the panel's session cookie carries the token verbatim, so such a token silently breaks browser login forever. Use a token of printable ASCII without space, '\"', ',', ';' or '\\\\' — e.g. openssl rand -hex 32."@
}

/// The credential that a file holds: its text without white space around it, which
/// must be there and fit a cookie.
pub open spec fn accepted(raw: Seq<char>, path: Seq<char>, field: Seq<char>) -> Result<
    Seq<char>,
    Seq<char>,
> {
    let token = text::trimmed(raw);
    if token.len() == 0 {
        Err(empty_text(field, path))
    } else if bad_at(token) < token.len() {
        Err(unsafe_text(field, path, token[bad_at(token)]))
    } else {
        Ok(token)
    }
}

/// Refuses a credential that a cookie cannot carry.
pub fn ensure_cookie_safe_token(token: &str, field: &str, path: &str) -> (r: Result<(), String>)
    ensures
        r is Ok <==> bad_at(token@) >= token@.len(),
        r is Ok <==> cookie_safe(token@),
        r is Err ==> r->Err_0@ == unsafe_text(field@, path@, token@[bad_at(token@)]),
{
    let v = text::chars_of(token);
    let mut i: usize = 0;
    assert(v@.skip(0) =~= v@);
    while i < v.len() && is_cookie_octet(v[i])
        invariant
            i <= v.len(),
            v@ == token@,
            bad_at(token@) == i + bad_at(v@.skip(i as int)),
            forall|k: int| 0 <= k < i ==> cookie_octet(#[trigger] token@[k]),
        decreases v.len() - i,
    {
        assert(v@.skip(i as int).skip(1) =~= v@.skip(i + 1));
        i += 1;
    }
    if i < v.len() {
        let mut m = about_file(field, path);
        m.push_str(" contains ");
        m.push_str(text::debug_char(v[i]).as_str());
        m.push_str(
            ", which is not valid in a cookie value; refusing to start — the panel's session cookie carries the token verbatim, so such a token silently breaks browser login forever. Use a token of printable ASCII without space, '\"', ',', ';' or '\\\\' — e.g. openssl rand -hex 32.",
        );
        return Err(m);
    }
    assert(v@.skip(i as int).len() == 0);
    Ok(())
}

/// The credential of the panel, from the file as it was found.
pub fn read_owner_only_token(file: &TokenFile, path: &str, field: &str) -> (r: Result<
    String,
    String,
>)
    ensures
        match file.mode {
            Some(Err(e)) => r matches Err(m) && m@ == about(field@, path@) + " stat failed: "@ + e@,
            _ => if file.mode matches Some(Ok(mode)) && mode & 0o077 != 0 {
                r matches Err(m) && m@ == about(field@, path@)
                    + " is group/other-accessible (mode "@ + octal(
                    (file.mode->Some_0->Ok_0 & 0o7777) as nat,
                ) + "); refusing to start — the panel's credential must be private. Fix: chmod 600 "@
                    + path@
            } else {
                match file.content {
                    Err(e) => r matches Err(m) && m@ == about(field@, path@) + " unreadable: "@ + e@,
                    Ok(raw) => match accepted(raw@, path@, field@) {
                        Ok(token) => r matches Ok(t) && t@ == token,
                        Err(e) => r matches Err(m) && m@ == e,
                    },
                }
            },
        },
        r matches Ok(t) ==> t@.len() > 0 && cookie_safe(t@),
{
    match &file.mode {
        Some(Err(e)) => {
            let mut m = about_file(field, path);
            m.push_str(" stat failed: ");
            m.push_str(e.as_str());
            return Err(m);
        },
        Some(Ok(mode)) => {
            match ensure_owner_only(*mode, path, field) {
                Ok(_) => {},
                Err(m) => {
                    return Err(m);
                },
            }
        },
        None => {},
    }
    match &file.content {
        Err(e) => {
            let mut m = about_file(field, path);
            m.push_str(" unreadable: ");
            m.push_str(e.as_str());
            Err(m)
        },
        Ok(raw) => {
            let token = text::trim(raw.as_str());
            if token.as_str().is_empty() {
                let mut m = about_file(field, path);
                m.push_str(
                    " is empty; refusing to start — with a token file configured the panel authenticates every route, so an empty token would reject every request AND every /login submission, locking the recovery panel out. Fix: write a token (openssl rand -hex 32 > ",
                );
                m.push_str(path);
                m.push_str(
                    ") or remove [panel].token_file to run unauthenticated on a loopback bind.",
                );
                return Err(m);
            }
            match ensure_cookie_safe_token(token.as_str(), field, path) {
                Ok(_) => Ok(token),
                Err(m) => Err(m),
            }
        },
    }
}

/// The credential for the daemon, from what its file holds, if it could be read:
/// the text without white space around it, unless that is empty.
pub fn read_token_file(content: Option<&str>) -> (r: Option<String>)
    ensures
        match content {
            None => r is None,
            Some(c) => if text::trimmed(c@).len() == 0 {
                r is None
            } else {
                r matches Some(t) && t@ == text::trimmed(c@)
            },
        },
{
    match content {
        None => None,
        Some(c) => {
            let t = text::trim(c);
            if t.as_str().is_empty() {
                None
            } else {
                Some(t)
            }
        },
    }
}

// ---------------------------------------------------------------------------
// Paths
// ---------------------------------------------------------------------------

/// `path` below `dir`. A path that starts at the root stands for itself.
pub open spec fn path_below(dir: Seq<char>, path: Seq<char>) -> Seq<char> {
    if dir.len() == 0 || (path.len() > 0 && path[0] == '/') {
        path
    } else if dir.last() == '/' {
        dir + path
    } else {
        dir + "/"@ + path
    }
}

/// `path` below `dir`. A path that starts at the root stands for itself.
pub fn join_path(dir: &str, path: &str) -> (r: String)
    ensures
        r@ == path_below(dir@, path@),
{
    let d = text::chars_of(dir);
    let p = text::chars_of(path);
    if d.len() == 0 || (p.len() > 0 && p[0] == '/') {
        return path.to_owned();
    }
    let mut out = dir.to_owned();
    if d[d.len() - 1] != '/' {
        out.push_str("/");
    }
    out.push_str(path);
    out
}

/// Puts the home directory in the place of a leading `~/`, where there is one.
pub fn expand_tilde(path: &str, home: Option<&str>) -> (r: String)
    ensures
        r@ == (match (text::after_prefix(path@, "~/"@), home) {
            (Some(rest), Some(h)) => path_below(h@, rest),
            _ => path@,
        }),
{
    match (text::strip_prefix(path, "~/"), home) {
        (Some(rest), Some(h)) => join_path(h, rest.as_str()),
        _ => path.to_owned(),
    }
}

/// Whether a path lies in a directory or is it. Both are free of links and dots.
pub open spec fn lies_in(path: Seq<char>, dir: Seq<char>) -> bool {
    path == dir || text::after_prefix(path, path_below(dir, Seq::empty())) is Some
}

/// The file with the credential, where it lies below the directory of the
/// configuration. `canonical` and `dir` are the two without links and dots, or why
/// they could not be found.
pub fn resolve_token_path(
    expanded: &str,
    canonical: Result<String, String>,
    dir: Result<String, String>,
    field: &str,
) -> (r: Result<String, String>)
    ensures
        match canonical {
            Err(e) => r matches Err(m) && m@ == about(field@, expanded@)
                + ": cannot resolve token file path: "@ + e@,
            Ok(path) => match dir {
                Err(e) => r matches Err(m) && m@ == "config: cannot resolve config dir for "@
                    + field@ + " validation: "@ + e@,
                Ok(d) => if lies_in(path@, d@) {
                    r == Ok::<String, String>(path)
                } else {
                    r matches Err(m) && m@ == about(field@, path@)
                        + " escapes the config directory "@ + d@
                        + " — a token file must live under it (refusing to read a secret from an arbitrary path)"@
                },
            },
        },
{
    let path = match canonical {
        Ok(p) => p,
        Err(e) => {
            let mut m = about_file(field, expanded);
            m.push_str(": cannot resolve token file path: ");
            m.push_str(e.as_str());
            return Err(m);
        },
    };
    let d = match dir {
        Ok(d) => d,
        Err(e) => {
            let mut m = "config: cannot resolve config dir for ".to_owned();
            m.push_str(field);
            m.push_str(" validation: ");
            m.push_str(e.as_str());
            return Err(m);
        },
    };
    proof {
        reveal_strlit("");
        assert(""@ =~= Seq::<char>::empty());
    }
    let prefix = join_path(d.as_str(), "");
    if text::same_text(path.as_str(), d.as_str()) || text::strip_prefix(
        path.as_str(),
        prefix.as_str(),
    ).is_some() {
        return Ok(path);
    }
    let mut m = about_file(field, path.as_str());
    m.push_str(" escapes the config directory ");
    m.push_str(d.as_str());
    m.push_str(
        " — a token file must live under it (refusing to read a secret from an arbitrary path)",
    );
    Err(m)
}

/// The socket of the daemon: the one that the environment names, else one in the
/// runtime directory, else one in the runtime directory of the user.
pub fn socket_path(
    named: Option<&str>,
    runtime_dir: Option<&str>,
    uid: u32,
    name: &str,
) -> (r: String)
    ensures
        r@ == (match named {
            Some(sock) => sock@,
            None => if runtime_dir is Some && runtime_dir->Some_0@.len() > 0 {
                path_below(runtime_dir->Some_0@, name@)
            } else {
                "/run/user/"@ + text::dec(uid as nat) + "/"@ + name@
            },
        }),
{
    if let Some(sock) = named {
        return sock.to_owned();
    }
    if let Some(dir) = runtime_dir {
        if !dir.is_empty() {
            return join_path(dir, name);
        }
    }
    let mut out = "/run/user/".to_owned();
    out.push_str(text::decimal(uid as u64).as_str());
    out.push_str("/");
    out.push_str(name);
    out
}

// ---------------------------------------------------------------------------
// Names of units
// ---------------------------------------------------------------------------

fn slugged(rest: &str) -> (r: String)
    ensures
        r@ == SLUG@ + rest@,
{
    let mut out = SLUG.to_owned();
    out.push_str(rest);
    out
}

/// The unit of the daemon.
pub fn daemon_unit() -> (r: String)
    ensures
        r@ == SLUG@ + "-input.service"@,
{
    slugged("-input.service")
}

/// The unit of the shell.
pub fn shell_unit() -> (r: String)
    ensures
        r@ == SLUG@ + "-quickshell.service"@,
{
    slugged("-quickshell.service")
}

/// The unit of the panel.
pub fn panel_unit() -> (r: String)
    ensures
        r@ == SLUG@ + "-panel.service"@,
{
    slugged("-panel.service")
}

/// The unit of the daemon in the journal.
pub fn daemon_journal_unit() -> (r: String)
    ensures
        r@ == SLUG@ + "-input"@,
{
    slugged("-input")
}

/// The tag of the shell in the journal.
pub fn shell_journal_tag() -> (r: String)
    ensures
        r@ == SLUG@ + "-quickshell"@,
{
    slugged("-quickshell")
}

// ---------------------------------------------------------------------------
// Laws
// ---------------------------------------------------------------------------

/// A panel that is switched off starts, and so does one that nobody else can reach and that
/// names no file for its credential, and one whose credential was read. It listens where it
/// is told to, and where it always does if that is no address.
pub proof fn law_sound_panels_start(raw: RawConfig, panel_read: Option<Result<String, String>>)
    ensures
        !raw.panel.enabled ==> starts(raw, panel_read),
        raw.panel.token_file is None && net_addr::is_loopback(bind_of(raw).ip) ==> starts(
            raw,
            panel_read,
        ),
        raw.panel.token_file is None && raw.dev.allow_insecure_lan ==> starts(raw, panel_read),
        raw.panel.token_file is Some && panel_read is Some && panel_read->0 is Ok ==> starts(
            raw,
            panel_read,
        ),
        raw.panel.enabled && raw.panel.token_file is Some && !(panel_read is Some && panel_read->0
            is Ok) ==> !starts(raw, panel_read),
        raw.panel.enabled && raw.panel.token_file is None && !raw.dev.allow_insecure_lan
            && !net_addr::is_loopback(bind_of(raw).ip) ==> !starts(raw, panel_read),
        net_addr::socket_of(raw.panel.bind@) matches Some(a) ==> bind_of(raw) == a,
        net_addr::socket_of(raw.panel.bind@) is None ==> bind_of(raw).port == 8091 && bind_of(raw).ip
            == net_addr::IpView::V4(127, 0, 0, 1),
{
}

/// The credential of a panel is what was read from the file that it names, while it is
/// switched on.
pub proof fn law_credential_is_what_was_read(raw: RawConfig, token: String)
    ensures
        raw.panel.enabled && raw.panel.token_file is Some ==> token_of(raw, Some(Ok(token)))
            == Some(token),
        !(raw.panel.enabled && raw.panel.token_file is Some) ==> token_of(raw, Some(Ok(token)))
            is None,
        token_of(raw, None) is None,
{
}

/// The daemon answers HTTP at the address that the configuration names, and nowhere where
/// it names none.
pub proof fn law_bridge_is_where_it_is_bound(raw: RawConfig)
    ensures
        raw.http.bind matches Some(b) ==> (b@.len() > 0 ==> bridge_of(raw) == Some(
            "http://"@ + b@,
        )),
        raw.http.bind is None || raw.http.bind->0@.len() == 0 ==> bridge_of(raw) is None,
{
}

proof fn lemma_bad_at(s: Seq<char>)
    ensures
        0 <= bad_at(s) <= s.len(),
        forall|i: int| 0 <= i < bad_at(s) ==> cookie_octet(#[trigger] s[i]),
        bad_at(s) < s.len() ==> !cookie_octet(s[bad_at(s)]),
    decreases s.len(),
{
    if s.len() > 0 && cookie_octet(s[0]) {
        let t = s.skip(1);
        lemma_bad_at(t);
        assert forall|i: int| 0 <= i < bad_at(s) implies cookie_octet(#[trigger] s[i]) by {
            if i > 0 {
                assert(s[i] == t[i - 1]);
            }
        }
    }
}

/// A credential is accepted exactly if it is there and holds printable ASCII without space,
/// quote, comma, semicolon and backslash; the white space around it is no part of it.
pub proof fn law_credentials_fit_a_cookie(raw: Seq<char>, path: Seq<char>, field: Seq<char>)
    ensures
        ({
            let token = text::trimmed(raw);
            let fits = token.len() > 0 && forall|i: int|
                0 <= i < token.len() ==> '!' <= #[trigger] token[i] <= '~' && token[i] != '"'
                    && token[i] != ',' && token[i] != ';' && token[i] != '\\';
            &&& fits ==> accepted(raw, path, field) == Ok::<Seq<char>, Seq<char>>(token)
            &&& !fits ==> accepted(raw, path, field) is Err
        }),
{
    let token = text::trimmed(raw);
    lemma_bad_at(token);
    let n = bad_at(token);
    assert forall|i: int| 0 <= i < token.len() implies (cookie_octet(#[trigger] token[i]) <==> '!'
        <= token[i] <= '~' && token[i] != '"' && token[i] != ',' && token[i] != ';' && token[i]
        != '\\') by {}
    if n < token.len() {
        assert(!cookie_octet(token[n]));
    }
}

/// What is written in octal is the number.
pub proof fn law_octal_reads_back(n: nat)
    ensures
        text::digits_value(octal(n), 8) == n,
        text::all_digits(octal(n), 8),
        octal(n).len() > 0,
    decreases n,
{
    if n < 8 {
        let s = octal(n);
        assert(s.drop_last() =~= Seq::empty());
        assert(text::digits_value(s.drop_last(), 8) == 0);
    } else {
        law_octal_reads_back(n / 8);
        let s = octal(n);
        assert(s.drop_last() =~= octal(n / 8));
        assert forall|i: int| 0 <= i < s.len() implies text::digit_value(#[trigger] s[i], 8) < 8 by {
            if i < s.len() - 1 {
                assert(s[i] == octal(n / 8)[i]);
            }
        }
    }
}

/// A path below a directory starts with the directory and one slash, and a path from the
/// root stands for itself.
pub proof fn law_paths_are_joined_with_one_slash(dir: Seq<char>, path: Seq<char>)
    ensures
        path.len() > 0 && path[0] == '/' ==> path_below(dir, path) == path,
        dir.len() == 0 ==> path_below(dir, path) == path,
        dir.len() > 0 && dir.last() != '/' && (path.len() == 0 || path[0] != '/') ==> path_below(
            dir,
            path,
        ) == dir + seq!['/'] + path,
        dir.len() > 0 && dir.last() == '/' && (path.len() == 0 || path[0] != '/') ==> path_below(
            dir,
            path,
        ) == dir + path,
{
    reveal_strlit("/");
    assert("/"@ =~= seq!['/']);
}

/// A file lies in a directory exactly if it is the directory or its path goes on behind the
/// directory and a slash: a directory whose name only starts alike is another.
pub proof fn law_files_lie_in_their_directory(dir: Seq<char>, rest: Seq<char>, path: Seq<char>)
    requires
        dir.len() > 0,
        dir.last() != '/',
    ensures
        lies_in(dir, dir),
        lies_in(dir + seq!['/'] + rest, dir),
        lies_in(path, dir) && path != dir ==> path.len() > dir.len() && path.take(dir.len() as int)
            == dir && path[dir.len() as int] == '/',
{
    reveal_strlit("/");
    let below = path_below(dir, Seq::empty());
    assert(below =~= dir + seq!['/']);
    let inside = dir + seq!['/'] + rest;
    assert(inside.subrange(0, below.len() as int) =~= below);
    if lies_in(path, dir) && path != dir {
        assert(path.subrange(0, below.len() as int) == below);
        assert(path.take(dir.len() as int) =~= dir) by {
            assert forall|i: int| 0 <= i < dir.len() implies path[i] == dir[i] by {
                assert(path.subrange(0, below.len() as int)[i] == below[i]);
            }
        }
        assert(path.subrange(0, below.len() as int)[dir.len() as int] == '/');
    }
}

/// A panel that others can reach is open to them exactly if it has no credential, and it starts
/// so only where the operator allows it.
pub proof fn law_strangers_need_a_credential(
    raw: RawConfig,
    panel_read: Option<Result<String, String>>,
)
    ensures
        open_to_others(raw, panel_read) ==> raw.panel.enabled && !raw.dev.allow_insecure_lan
            && !net_addr::is_loopback(bind_of(raw).ip),
        open_to_others(raw, panel_read) ==> !(raw.panel.token_file is Some && panel_read is Some
            && panel_read->0 is Ok),
        raw.panel.enabled && raw.panel.token_file is None && !raw.dev.allow_insecure_lan
            && !net_addr::is_loopback(bind_of(raw).ip) ==> open_to_others(raw, panel_read),
        unread(raw, panel_read) is Some <==> raw.panel.enabled && raw.panel.token_file is Some
            && !(panel_read is Some && panel_read->0 is Ok),
        unread(raw, panel_read) is Some && panel_read is Some ==> unread(raw, panel_read)
            == Some(panel_read->0->Err_0@),
        unread(raw, panel_read) is Some && panel_read is None ==> unread(raw, panel_read)
            == Some("panel.token_file was not read"@),
{
}

/// What is said of a credential that cannot be used starts with the field and the file that it
/// is about, and names what is wrong.
pub proof fn law_complaints_name_the_file(field: Seq<char>, path: Seq<char>, bad: char)
    ensures
        ({
            let head = "config: "@ + field + " "@ + path;
            &&& empty_text(field, path).take(head.len() as int) == head
            &&& unsafe_text(field, path, bad).take(head.len() as int) == head
            &&& text::occurs_at(empty_text(field, path), " is empty; refusing to start"@, head.len() as int)
            &&& text::occurs_at(
                unsafe_text(field, path, bad),
                " contains "@ + text::debugged_char(bad) + ", which is not valid in a cookie value"@,
                head.len() as int,
            )
        }),
{
    let head = "config: "@ + field + " "@ + path;
    let empty = " is empty; refusing to start — with a token file configured the panel authenticates every route, so an empty token would reject every request AND every /login submission, locking the recovery panel out. Fix: write a token (openssl rand -hex 32 > "@;
    reveal_strlit(
        " is empty; refusing to start — with a token file configured the panel authenticates every route, so an empty token would reject every request AND every /login submission, locking the recovery panel out. Fix: write a token (openssl rand -hex 32 > ",
    );
    reveal_strlit(" is empty; refusing to start");
    let e = empty_text(field, path);
    assert(e.take(head.len() as int) =~= head);
    let w = " is empty; refusing to start"@;
    let n = head.len() as int;
    assert(e.subrange(n, n + w.len()) =~= empty.take(w.len() as int));
    assert(empty.take(w.len() as int) =~= w);
    let invalid = ", which is not valid in a cookie value; refusing to start — the panel's session cookie carries the token verbatim, so such a token silently breaks browser login forever. Use a token of printable ASCII without space, '\"', ',', ';' or '\\\\' — e.g. openssl rand -hex 32."@;
    reveal_strlit(
        ", which is not valid in a cookie value; refusing to start — the panel's session cookie carries the token verbatim, so such a token silently breaks browser login forever. Use a token of printable ASCII without space, '\"', ',', ';' or '\\\\' — e.g. openssl rand -hex 32.",
    );
    reveal_strlit(", which is not valid in a cookie value");
    let u = unsafe_text(field, path, bad);
    assert(u.take(head.len() as int) =~= head);
    let v = ", which is not valid in a cookie value"@;
    assert(invalid.take(v.len() as int) =~= v);
    let x = " contains "@ + text::debugged_char(bad);
    assert(u.subrange(n, n + (x + v).len()) =~= x + invalid.take(
        v.len() as int,
    ));
}

/// A panel is refused exactly if an address of others is where it listens, it has no
/// credential that it asks for, and the operator does not allow just that.
pub proof fn law_exposed_panels_have_no_credential(cfg: AppConfig)
    ensures
        net_addr::is_loopback(cfg.panel_bind@.ip) ==> !cfg.exposed(),
        cfg.panel_token_file is Some && cfg.panel_token is Some ==> !cfg.exposed(),
        !net_addr::is_loopback(cfg.panel_bind@.ip) && cfg.panel_token_file is None ==> cfg.exposed(),
        !net_addr::is_loopback(cfg.panel_bind@.ip) && cfg.panel_token is None ==> cfg.exposed(),
        cfg.auth_on() <==> cfg.panel_token_file is Some,
{
}

/// What is said of a panel that is refused names where it listens, and the ways out.
pub proof fn law_refusals_name_the_address(addr: net_addr::SocketView)
    ensures
        ({
            let head = "refusing to start: web control panel is bound to non-loopback "@
                + net_addr::socket_text(addr);
            let m = refusal(addr);
            &&& m.take(head.len() as int) == head
            &&& text::has_text(m, "Set [panel].token_file (0600, under ~/.config/tv-shell/)"@)
            &&& text::has_text(m, "bind to 127.0.0.1"@)
            &&& text::has_text(m, "opt in with [dev].allow_insecure_lan = true."@)
        }),
{
    let head = "refusing to start: web control panel is bound to non-loopback "@
        + net_addr::socket_text(addr);
    let rest = " with auth effectively disabled (no token) — every panel route can restart units, rewrite config.toml, upload files and (with allow_dangerous) deploy, reboot or run a full system update. Set [panel].token_file (0600, under ~/.config/tv-shell/), bind to 127.0.0.1, or explicitly opt in with [dev].allow_insecure_lan = true."@;
    reveal_strlit(
        " with auth effectively disabled (no token) — every panel route can restart units, rewrite config.toml, upload files and (with allow_dangerous) deploy, reboot or run a full system update. Set [panel].token_file (0600, under ~/.config/tv-shell/), bind to 127.0.0.1, or explicitly opt in with [dev].allow_insecure_lan = true.",
    );
    reveal_strlit("Set [panel].token_file (0600, under ~/.config/tv-shell/)");
    reveal_strlit("bind to 127.0.0.1");
    reveal_strlit("opt in with [dev].allow_insecure_lan = true.");
    let m = refusal(addr);
    assert(m =~= head + rest);
    assert(m.take(head.len() as int) =~= head);
    let n = head.len() as int;
    let w1 = "Set [panel].token_file (0600, under ~/.config/tv-shell/)"@;
    assert(m.subrange(n + 187, n + 187 + w1.len()) =~= w1);
    assert(text::occurs_at(m, w1, n + 187));
    let w2 = "bind to 127.0.0.1"@;
    assert(m.subrange(n + 245, n + 245 + w2.len()) =~= w2);
    assert(text::occurs_at(m, w2, n + 245));
    let w3 = "opt in with [dev].allow_insecure_lan = true."@;
    assert(m.subrange(n + 278, n + 278 + w3.len()) =~= w3);
    assert(text::occurs_at(m, w3, n + 278));
}

} // verus!
