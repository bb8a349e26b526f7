//! Who may use the panel: a credential in a header or in a session cookie.

use crate::config;
use crate::config::AppConfig;
use crate::text;
use subtle::ConstantTimeEq;
use vstd::prelude::*;

verus! {

/// The name of the session cookie.
pub const SESSION_COOKIE: &'static str = "tv_shell_panel_session";

/// The paths that need no credential.
pub const PUBLIC_PATHS: [&'static str; 3] = ["/assets/htmx.min.js", "/assets/style.css", "/login"];

/// What is said of the session cookie besides its value. The panel is served over
/// plain HTTP, so the cookie is not confined to TLS.
pub const COOKIE_ATTRS: &'static str = "HttpOnly; SameSite=Strict; Path=/";

/// Whether a path needs no credential.
pub fn is_public(path: &str) -> (r: bool)
    ensures
        r == (path@ == "/assets/htmx.min.js"@ || path@ == "/assets/style.css"@ || path@ == "/login"@),
{
    text::same_text(path, PUBLIC_PATHS[0]) || text::same_text(path, PUBLIC_PATHS[1])
        || text::same_text(path, PUBLIC_PATHS[2])
}

/// `subtle::ConstantTimeEq::ct_eq` on the bytes of two texts: whether they are the
/// same. Texts of different lengths are not; for those of one length the time that
/// it takes is meant not to tell where they differ, which the contract does not say.
#[verifier::external_body]
pub fn ct_eq_str(a: &str, b: &str) -> (r: bool)
    ensures
        r == (a@ == b@),
{
    a.as_bytes().ct_eq(b.as_bytes()).into()
}

/// The cookie that a successful login sets.
pub open spec fn cookie_text(token: Seq<char>) -> Seq<char> {
    SESSION_COOKIE@ + "="@ + token + "; "@ + COOKIE_ATTRS@
}

/// The cookie that a successful login sets.
pub fn session_cookie(token: &str) -> (r: String)
    ensures
        r@ == cookie_text(token@),
{
    let mut out = SESSION_COOKIE.to_owned();
    out.push_str("=");
    out.push_str(token);
    out.push_str("; ");
    out.push_str(COOKIE_ATTRS);
    out
}

/// The headers of a request that matter here, as far as they are text.
#[derive(Debug, Clone, PartialEq, Eq)]
pub struct Headers {
    pub authorization: Option<String>,
    pub cookie: Option<String>,
    pub hx_request: Option<String>,
    pub accept: Option<String>,
}

impl Default for Headers {
    fn default() -> (r: Self)
        ensures
            r.authorization is None,
            r.cookie is None,
            r.hx_request is None,
            r.accept is None,
    {
        Headers { authorization: None, cookie: None, hx_request: None, accept: None }
    }
}

/// The credential of an `Authorization` header: what follows the word `Bearer`, in
/// any case, after a space.
pub open spec fn bearer_of(value: Seq<char>) -> Option<Seq<char>> {
    match text::cut_at(text::trimmed(value), ' ') {
        Some((scheme, rest)) => if text::same_but_case(scheme, "Bearer"@) && text::trimmed(
            rest,
        ).len() > 0 {
            Some(text::trimmed(rest))
        } else {
            None
        },
        None => None,
    }
}

/// The credential of an `Authorization` header.
pub fn strip_bearer(value: &str) -> (r: Option<String>)
    ensures
        crate::json::text_view(r) == bearer_of(value@),
{
    match text::split_once(text::trim(value).as_str(), ' ') {
        Some((scheme, rest)) => {
            let token = text::trim(rest.as_str());
            if text::eq_ignore_case(scheme.as_str(), "Bearer") && !token.as_str().is_empty() {
                Some(token)
            } else {
                None
            }
        },
        None => None,
    }
}

/// The value of a pair of a `Cookie` header, where it is that of the session.
pub open spec fn session_pair(pair: Seq<char>) -> Option<Seq<char>> {
    match text::cut_at(pair, '=') {
        Some((name, value)) => if text::trimmed(name) == SESSION_COOKIE@ && text::trimmed(value).len()
            > 0 {
            Some(text::trimmed(value))
        } else {
            None
        },
        None => None,
    }
}

/// The first session among some pairs.
pub open spec fn session_among(pairs: Seq<Seq<char>>) -> Option<Seq<char>>
    decreases pairs.len(),
{
    if pairs.len() == 0 {
        None
    } else {
        match session_pair(pairs[0]) {
            Some(v) => Some(v),
            None => session_among(pairs.skip(1)),
        }
    }
}

/// The session of a `Cookie` header.
pub open spec fn session_of(header: Seq<char>) -> Option<Seq<char>> {
    session_among(text::split_on(header, ';'))
}

fn pair_value(pair: &str) -> (r: Option<String>)
    ensures
        crate::json::text_view(r) == session_pair(pair@),
{
    match text::split_once(pair, '=') {
        Some((name, value)) => {
            let v = text::trim(value.as_str());
            if text::same_text(text::trim(name.as_str()).as_str(), SESSION_COOKIE)
                && !v.as_str().is_empty() {
                Some(v)
            } else {
                None
            }
        },
        None => None,
    }
}

/// The session of a `Cookie` header.
pub fn session_cookie_value(header: &str) -> (r: Option<String>)
    ensures
        crate::json::text_view(r) == session_of(header@),
{
    let pairs = text::split_char(header, ';');
    let ghost all = text::views(pairs@);
    let mut i: usize = 0;
    assert(all.skip(0) =~= all);
    while i < pairs.len()
        invariant
            i <= pairs.len(),
            all == text::views(pairs@),
            session_among(all) == session_among(all.skip(i as int)),
            session_of(header@) == session_among(all),
        decreases pairs.len() - i,
    {
        assert(all.skip(i as int)[0] == pairs@[i as int]@);
        assert(all.skip(i as int).skip(1) =~= all.skip(i + 1));
        match pair_value(pairs[i].as_str()) {
            Some(v) => {
                return Some(v);
            },
            None => {},
        }
        i += 1;
    }
    None
}

/// The credential that a request shows: the header first, then the cookie.
pub open spec fn presented(h: Headers) -> Option<Seq<char>> {
    let bearer = match h.authorization {
        Some(v) => bearer_of(v@),
        None => None,
    };
    match bearer {
        Some(t) => Some(t),
        None => match h.cookie {
            Some(v) => session_of(v@),
            None => None,
        },
    }
}

/// The credential that a request shows.
pub fn presented_token(h: &Headers) -> (r: Option<String>)
    ensures
        crate::json::text_view(r) == presented(*h),
{
    match &h.authorization {
        Some(v) => match strip_bearer(v.as_str()) {
            Some(t) => {
                return Some(t);
            },
            None => {},
        },
        None => {},
    }
    match &h.cookie {
        Some(v) => session_cookie_value(v.as_str()),
        None => None,
    }
}

/// Whether a request may proceed. With authentication off every one may; with it
/// on, only one that shows the credential, and none if there is no credential.
pub open spec fn authorized(cfg: AppConfig, h: Headers) -> bool {
    !cfg.auth_on() || (cfg.panel_token is Some && presented(h) == Some(cfg.panel_token->Some_0@))
}

/// Whether a request may proceed.
pub fn authorize(cfg: &AppConfig, h: &Headers) -> (r: bool)
    ensures
        r == authorized(*cfg, *h),
{
    if !cfg.auth_enabled() {
        return true;
    }
    match &cfg.panel_token {
        Some(expected) => match presented_token(h) {
            Some(token) => ct_eq_str(token.as_str(), expected.as_str()),
            None => false,
        },
        None => false,
    }
}

/// What is answered to a request, but for a page.
#[derive(Debug, Clone, Copy, PartialEq, Eq)]
pub struct Answer {
    pub status: u16,
    pub content_type: Option<&'static str>,
    /// Where the client is sent.
    pub location: Option<&'static str>,
    pub body: &'static str,
}

/// What is answered to a request that may not proceed: a plain refusal, or the way
/// to the login form.
#[derive(Debug, Clone, Copy, PartialEq, Eq, Structural)]
pub enum Turned {
    /// A plain text, for a part of a page.
    PartRefused,
    /// The way to the login form, for a browser.
    ToLogin,
    /// A plain text, for anything else.
    Refused,
}

/// How a request is turned away. What asks for a part of a page never gets a whole
/// page.
pub open spec fn turned(h: Headers) -> Turned {
    if h.hx_request is Some && text::same_but_case(h.hx_request->Some_0@, "true"@) {
        Turned::PartRefused
    } else if h.accept is Some && text::has_text(h.accept->Some_0@, "text/html"@) {
        Turned::ToLogin
    } else {
        Turned::Refused
    }
}

/// Whether `r` is what a request that is turned away gets.
pub open spec fn answers(r: Answer, way: Turned) -> bool {
    match way {
        Turned::PartRefused => r.status == 401 && (r.content_type matches Some(t) && t@
            == "text/plain; charset=utf-8"@) && r.location is None && r.body@
            == "unauthorized: panel session expired — reload the page to sign in\n"@,
        Turned::ToLogin => r.status == 303 && r.content_type is None && (r.location matches Some(l)
            && l@ == "/login"@) && r.body@ == ""@,
        Turned::Refused => r.status == 401 && (r.content_type matches Some(t) && t@
            == "text/plain; charset=utf-8"@) && r.location is None && r.body@
            == "unauthorized: POST /login or send `Authorization: Bearer <token>`\n"@,
    }
}

/// What is answered to a request that is turned away.
pub fn unauthorized(h: &Headers) -> (r: Answer)
    ensures
        answers(r, turned(*h)),
{
    let part = match &h.hx_request {
        Some(v) => text::eq_ignore_case(v.as_str(), "true"),
        None => false,
    };
    if part {
        return plain_401(
            "unauthorized: panel session expired — reload the page to sign in\n",
        );
    }
    let html = match &h.accept {
        Some(v) => text::contains_text(v.as_str(), "text/html"),
        None => false,
    };
    if html {
        return Answer { status: 303, content_type: None, location: Some("/login"), body: "" };
    }
    plain_401("unauthorized: POST /login or send `Authorization: Bearer <token>`\n")
}

fn plain_401(body: &'static str) -> (r: Answer)
    ensures
        r.status == 401,
        r.content_type matches Some(t) && t@ == "text/plain; charset=utf-8"@,
        r.location is None,
        r.body@ == body@,
{
    Answer { status: 401, content_type: Some("text/plain; charset=utf-8"), location: None, body }
}

/// Whether a request for a path reaches its handler; what is answered otherwise.
pub fn require_auth(cfg: &AppConfig, path: &str, h: &Headers) -> (r: Option<Answer>)
    ensures
        r is None <==> (path@ == "/assets/htmx.min.js"@ || path@ == "/assets/style.css"@ || path@
            == "/login"@ || authorized(*cfg, *h)),
        r matches Some(a) ==> answers(a, turned(*h)),
{
    if is_public(path) || authorize(cfg, h) {
        return None;
    }
    Some(unauthorized(h))
}

// ---------------------------------------------------------------------------
// Login
// ---------------------------------------------------------------------------

/// Whether a text can be the value of a header: it holds no control character but
/// the tab.
pub open spec fn header_safe(s: Seq<char>) -> bool {
    forall|i: int| 0 <= i < s.len() ==> header_char(#[trigger] s[i])
}

/// Whether a character can stand in the value of a header.
pub open spec fn header_char(c: char) -> bool {
    (c as int >= 0x20 && c as int != 0x7f) || c as int == 9
}

fn is_header_char(c: char) -> (r: bool)
    ensures
        r == header_char(c),
{
    let n: u32 = c as u32;
    (n >= 0x20 && n != 0x7f) || n == 9
}

fn is_header_safe(s: &str) -> (r: bool)
    ensures
        r == header_safe(s@),
{
    let v = text::chars_of(s);
    let mut i: usize = 0;
    while i < v.len()
        invariant
            i <= v.len(),
            v@ == s@,
            forall|k: int| 0 <= k < i ==> header_char(#[trigger] s@[k]),
        decreases v.len() - i,
    {
        if !is_header_char(v[i]) {
            return false;
        }
        i += 1;
    }
    true
}

/// What is answered to a login.
#[derive(Debug, Clone, PartialEq, Eq)]
pub enum LoginOutcome {
    /// The form again, with a status and an error.
    Form { status: u16, auth_enabled: bool, error: &'static str },
    /// The way to the front page, with the session cookie.
    SignedIn { cookie: String },
}

/// A form with a token.
#[derive(Debug, Clone, PartialEq, Eq)]
pub struct LoginForm {
    pub token: String,
}

/// What is answered to a login.
pub fn submit(cfg: &AppConfig, form: &LoginForm) -> (r: LoginOutcome)
    ensures
        !cfg.auth_on() ==> (r matches LoginOutcome::Form { status, auth_enabled, error } && status
            == 400 && !auth_enabled && error@
            == "Panel authentication is not configured ([panel].token_file is unset)."@),
        cfg.auth_on() && !(cfg.panel_token is Some && cfg.panel_token->Some_0@ == text::trimmed(
            form.token@,
        )) ==> (r matches LoginOutcome::Form { status, auth_enabled, error } && status == 401
            && auth_enabled && error@ == "Incorrect token."@),
        cfg.auth_on() && cfg.panel_token is Some && cfg.panel_token->Some_0@ == text::trimmed(form.token@)
            ==> if header_safe(cookie_text(text::trimmed(form.token@))) {
            r matches LoginOutcome::SignedIn { cookie } && cookie@ == cookie_text(
                text::trimmed(form.token@),
            )
        } else {
            r matches LoginOutcome::Form { status, auth_enabled, error } && status == 400
                && auth_enabled && error@
                == "That token cannot be stored in a cookie (unexpected characters)."@
        },
{
    if !cfg.auth_enabled() {
        return LoginOutcome::Form {
            status: 400,
            auth_enabled: false,
            error: "Panel authentication is not configured ([panel].token_file is unset).",
        };
    }
    let submitted = text::trim(form.token.as_str());
    let ok = match &cfg.panel_token {
        Some(expected) => ct_eq_str(submitted.as_str(), expected.as_str()),
        None => false,
    };
    if !ok {
        return LoginOutcome::Form { status: 401, auth_enabled: true, error: "Incorrect token." };
    }
    let cookie = session_cookie(submitted.as_str());
    if is_header_safe(cookie.as_str()) {
        LoginOutcome::SignedIn { cookie }
    } else {
        LoginOutcome::Form {
            status: 400,
            auth_enabled: true,
            error: "That token cannot be stored in a cookie (unexpected characters).",
        }
    }
}

// ---------------------------------------------------------------------------
// Laws
// ---------------------------------------------------------------------------

/// What a browser sends back of the session cookie: its name and its value.
pub open spec fn cookie_pair(token: Seq<char>) -> Seq<char> {
    SESSION_COOKIE@ + "="@ + token
}

/// Every credential that the configuration accepts comes back out of the session
/// cookie as it went in.
pub proof fn law_cookie_reads_back(token: Seq<char>)
    requires
        token.len() > 0,
        config::cookie_safe(token),
    ensures
        text::split_on(cookie_text(token), ';')[0] == cookie_pair(token),
        session_of(cookie_pair(token)) == Some(token),
        header_safe(cookie_text(token)),
{
    reveal_strlit("tv_shell_panel_session");
    reveal_strlit("=");
    reveal_strlit("; ");
    reveal_strlit("HttpOnly; SameSite=Strict; Path=/");
    let pair = cookie_pair(token);
    let whole = cookie_text(token);
    let name = SESSION_COOKIE@;
    assert(name.len() == 22);
    assert forall|i: int| 0 <= i < pair.len() implies #[trigger] pair[i] != ';' by {
        if i > 22 {
            assert(pair[i] == token[i - 23]);
            assert(config::cookie_octet(token[i - 23]));
        }
    }
    assert(whole[pair.len() as int] == ';');
    assert forall|i: int| 0 <= i < pair.len() implies #[trigger] whole[i] != ';' by {
        assert(whole[i] == pair[i]);
    }
    text::lemma_first_of_unique(whole, ';', pair.len() as int);
    assert(whole.take(pair.len() as int) =~= pair);
    text::lemma_first_of_unique(pair, ';', pair.len() as int);
    assert(text::split_on(pair, ';') =~= seq![pair]);
    text::lemma_first_of_unique(pair, '=', 22);
    assert(pair.take(22) =~= name);
    assert(pair.skip(23) =~= token);
    text::lemma_trimmed_fixed(name);
    assert(config::cookie_octet(token[0]) && config::cookie_octet(token.last()));
    text::lemma_trimmed_fixed(token);
    assert(session_pair(pair) == Some(token));
    assert(session_among(seq![pair]) == Some(token));
    assert forall|i: int| 0 <= i < whole.len() implies header_char(#[trigger] whole[i]) by {
        if 23 <= i < pair.len() {
            assert(whole[i] == token[i - 23]);
            assert(config::cookie_octet(token[i - 23]));
        }
    }
}

/// Who signs in with a credential that the configuration accepts is let through
/// afterwards, by the cookie and by the header alike.
pub proof fn law_signed_in_is_authorized(cfg: AppConfig, by_cookie: Headers, by_header: Headers)
    requires
        cfg.panel_token is Some,
        cfg.panel_token->Some_0@.len() > 0,
        config::cookie_safe(cfg.panel_token->Some_0@),
        by_cookie.authorization is None,
        by_cookie.cookie is Some,
        by_cookie.cookie->Some_0@ == cookie_pair(cfg.panel_token->Some_0@),
        by_header.authorization is Some,
        by_header.authorization->Some_0@ == "Bearer "@ + cfg.panel_token->Some_0@,
    ensures
        authorized(cfg, by_cookie),
        authorized(cfg, by_header),
{
    let token = cfg.panel_token->Some_0@;
    law_cookie_reads_back(token);
    reveal_strlit("Bearer ");
    reveal_strlit("Bearer");
    let value = "Bearer "@ + token;
    assert(config::cookie_octet(token[0]) && config::cookie_octet(token.last()));
    assert(value.last() == token.last());
    text::lemma_trimmed_fixed(value);
    text::lemma_trimmed_fixed(token);
    text::lemma_first_of_unique(value, ' ', 6);
    assert(value.take(6) =~= "Bearer"@);
    assert(value.skip(7) =~= token);
}

/// What asks for a part of a page and is turned away gets a plain refusal, never the
/// login form or the way to it, whatever else it accepts.
pub proof fn law_parts_get_no_page(h: Headers, r: Answer)
    requires
        h.hx_request is Some,
        text::same_but_case(h.hx_request->Some_0@, "true"@),
        answers(r, turned(h)),
    ensures
        r.status == 401,
        r.location is None,
        r.content_type matches Some(t) && t@ == "text/plain; charset=utf-8"@,
{
}

/// With authentication on and no credential, nothing is let through.
pub proof fn law_no_credential_no_entry(cfg: AppConfig, h: Headers)
    requires
        cfg.auth_on(),
        cfg.panel_token is None,
    ensures
        !authorized(cfg, h),
{
}

/// With authentication on, only the credential itself opens the panel: as the bearer of the
/// header, or, where the header has none, as the session of the cookie. With it off, the
/// panel is open.
pub proof fn law_only_the_credential_opens(cfg: AppConfig, h: Headers)
    ensures
        cfg.panel_token_file is None ==> authorized(cfg, h),
        cfg.panel_token_file is Some ==> (authorized(cfg, h) <==> cfg.panel_token is Some && {
            let token = Some(cfg.panel_token->0@);
            let bearer = match h.authorization {
                Some(v) => bearer_of(v@),
                None => None,
            };
            let session = match h.cookie {
                Some(v) => session_of(v@),
                None => None,
            };
            bearer == token || (bearer is None && session == token)
        }),
{
}

/// The header names its credential behind the word `Bearer` in any case and a space, and
/// names none behind another word or without one.
pub proof fn law_bearers_are_named(word: Seq<char>, token: Seq<char>)
    requires
        word.len() > 0,
        forall|i: int| 0 <= i < word.len() ==> !text::is_white(#[trigger] word[i]),
        token.len() > 0,
        !text::is_white(token[0]),
        !text::is_white(token.last()),
    ensures
        text::same_but_case(word, "Bearer"@) ==> bearer_of(word + seq![' '] + token) == Some(token),
        !text::same_but_case(word, "Bearer"@) ==> bearer_of(word + seq![' '] + token) is None,
        bearer_of(word) is None,
{
    let value = word + seq![' '] + token;
    assert(value[0] == word[0]);
    assert(value.last() == token.last());
    text::lemma_trimmed_fixed(value);
    text::lemma_trimmed_fixed(token);
    assert forall|i: int| 0 <= i < word.len() implies #[trigger] value[i] != ' ' by {
        assert(value[i] == word[i] && !text::is_white(word[i]));
    }
    text::lemma_first_of_unique(value, ' ', word.len() as int);
    assert(value.take(word.len() as int) =~= word);
    assert(value.skip(word.len() as int + 1) =~= token);
    assert(!text::is_white(word[0]) && !text::is_white(word[word.len() - 1]));
    text::lemma_trimmed_fixed(word);
    assert forall|i: int| 0 <= i < word.len() implies #[trigger] word[i] != ' ' by {
        assert(!text::is_white(word[i]));
    }
    text::lemma_first_of_unique(word, ' ', word.len() as int);
}

/// The session is the value of the first cookie of that name that is not empty, whatever
/// other cookies there are.
pub proof fn law_first_session_counts(pairs: Seq<Seq<char>>, n: int, value: Seq<char>)
    requires
        0 <= n <= pairs.len(),
        forall|i: int|
            0 <= i < n ==> {
                let cut = text::cut_at(#[trigger] pairs[i], '=');
                cut matches Some(p) ==> text::trimmed(p.0) != "tv_shell_panel_session"@
                    || text::trimmed(p.1).len() == 0
            },
        n < pairs.len() ==> (text::cut_at(pairs[n], '=') matches Some(p) && text::trimmed(p.0)
            == "tv_shell_panel_session"@ && text::trimmed(p.1) == value && value.len() > 0),
    ensures
        session_among(pairs) == (if n < pairs.len() {
            Some(value)
        } else {
            None
        }),
    decreases n,
{
    if n > 0 {
        let t = pairs.skip(1);
        let cut = text::cut_at(pairs[0], '=');
        assert(session_pair(pairs[0]) is None);
        assert forall|i: int| 0 <= i < n - 1 implies {
            let cut = text::cut_at(#[trigger] t[i], '=');
            cut matches Some(p) ==> text::trimmed(p.0) != "tv_shell_panel_session"@ || text::trimmed(
                p.1,
            ).len() == 0
        } by {
            assert(t[i] == pairs[i + 1]);
            let cut = text::cut_at(pairs[i + 1], '=');
        }
        law_first_session_counts(t, n - 1, value);
    }
}

/// What is turned away is refused with 401 in plain text, but a browser that asks for a
/// page, which is sent to the login form.
pub proof fn law_browsers_are_sent_to_the_login(h: Headers, r: Answer)
    requires
        answers(r, turned(h)),
    ensures
        ({
            let part = h.hx_request is Some && text::same_but_case(h.hx_request->0@, "true"@);
            let html = h.accept is Some && text::has_text(h.accept->0@, "text/html"@);
            &&& !part && html ==> r.status == 303 && (r.location matches Some(l) && l@ == "/login"@)
            &&& part || !html ==> r.status == 401 && r.location is None && (r.content_type
                matches Some(t) && t@ == "text/plain; charset=utf-8"@)
        }),
{
}

/// A cookie that can be set holds no control character, so it ends no header.
pub proof fn law_cookies_end_no_header(token: Seq<char>, i: int)
    requires
        header_safe(cookie_text(token)),
        0 <= i < token.len(),
    ensures
        token[i] != '\n' && token[i] != '\r' && token[i] != '\0' && token[i] != '\u{7f}',
        token[i] == '\t' || token[i] >= ' ',
{
    let c = cookie_text(token);
    let n = (SESSION_COOKIE@ + "="@).len();
    assert(c[n + i] == token[i]);
    assert(header_char(c[n + i]));
}

/// The session cookie is named, holds the credential, is kept from scripts and from other
/// sites, and holds for every path.
pub proof fn law_session_cookie_is_guarded(token: Seq<char>)
    ensures
        cookie_text(token) == "tv_shell_panel_session"@ + "="@ + token + "; "@
            + "HttpOnly; SameSite=Strict; Path=/"@,
{
}

} // verus!
