//! Driving the shell from the panel: what can be launched, where to go, and lines
//! as they are typed.

use crate::html;
use crate::html::esc;
use crate::ipc_console;
use crate::ipc_console::{
    error_result, line_of, pretty_block, validate_token, Ask, IpcResult,
};
use crate::text;
use vstd::prelude::*;

verus! {

// ---------------------------------------------------------------------------
// Launching
// ---------------------------------------------------------------------------

/// An app that can be launched.
#[derive(Debug, Clone, PartialEq, Eq)]
pub struct AppEntry {
    pub name: String,
    pub comment: String,
    pub wm_class: String,
}

/// A form with the class of an app.
#[derive(Debug, Clone, PartialEq, Eq)]
pub struct WmClassForm {
    pub wm_class: String,
}

/// An app in the table.
pub open spec fn app_html(a: AppEntry) -> Seq<char> {
    "<tr><td>"@ + html::escaped(a.name@) + "</td><td class=\"muted\">"@ + html::escaped(a.comment@)
        + "</td><td>\n                       <form hx-post=\"/remote/launcher/launch\" hx-disabled-elt=\"find button\" hx-target=\"#launcher-result\" hx-swap=\"innerHTML\" class=\"inline-form\">\n                         <input type=\"hidden\" name=\"wm_class\" value=\""@
        + html::escaped(a.wm_class@) + "\">\n                         <button class=\"btn-mutate\" type=\"submit\">Launch</button>\n                       </form></td></tr>"@
}

/// Apps in the table.
pub open spec fn apps_html(apps: Seq<AppEntry>) -> Seq<char>
    decreases apps.len(),
{
    if apps.len() == 0 {
        "<table class=\"tools-table\"><thead><tr><th>Name</th><th>Comment</th><th></th></tr></thead><tbody>"@
    } else {
        apps_html(apps.drop_last()) + app_html(apps.last())
    }
}

/// What is shown of the apps.
pub open spec fn app_list(apps: Seq<AppEntry>) -> ipc_console::IpcShown {
    ipc_console::IpcShown {
        ok: true,
        warning: Seq::empty(),
        body_html: if apps.len() == 0 {
            "<p class=\"muted\">No launchable apps found.</p>"@
        } else {
            apps_html(apps) + "</tbody></table>"@
        },
    }
}

fn app_row(a: &AppEntry) -> (r: String)
    ensures
        r@ == app_html(*a),
{
    let mut out = "<tr><td>".to_owned();
    out.push_str(esc(a.name.as_str()).as_str());
    out.push_str("</td><td class=\"muted\">");
    out.push_str(esc(a.comment.as_str()).as_str());
    out.push_str(
        "</td><td>\n                       <form hx-post=\"/remote/launcher/launch\" hx-disabled-elt=\"find button\" hx-target=\"#launcher-result\" hx-swap=\"innerHTML\" class=\"inline-form\">\n                         <input type=\"hidden\" name=\"wm_class\" value=\"",
    );
    out.push_str(esc(a.wm_class.as_str()).as_str());
    out.push_str(
        "\">\n                         <button class=\"btn-mutate\" type=\"submit\">Launch</button>\n                       </form></td></tr>",
    );
    out
}

/// What is shown of the apps, or of the error in their place.
pub fn render_list_apps(reply: Result<Vec<AppEntry>, String>) -> (r: IpcResult)
    ensures
        match reply {
            Ok(apps) => r@ == app_list(apps@),
            Err(e) => r@ == ipc_console::failure(e@),
        },
{
    match reply {
        Ok(apps) => {
            if apps.len() == 0 {
                return IpcResult {
                    ok: true,
                    warning: String::new(),
                    body_html: "<p class=\"muted\">No launchable apps found.</p>".to_owned(),
                };
            }
            let mut out =
                "<table class=\"tools-table\"><thead><tr><th>Name</th><th>Comment</th><th></th></tr></thead><tbody>".to_owned();
            let mut i: usize = 0;
            assert(apps@.take(0) =~= Seq::empty());
            while i < apps.len()
                invariant
                    i <= apps.len(),
                    out@ == apps_html(apps@.take(i as int)),
                decreases apps.len() - i,
            {
                let ghost next = apps@.take(i + 1);
                assert(next.drop_last() =~= apps@.take(i as int));
                assert(next.last() == apps@[i as int]);
                out.push_str(app_row(&apps[i]).as_str());
                i += 1;
            }
            assert(apps@.take(i as int) =~= apps@);
            out.push_str("</tbody></table>");
            IpcResult { ok: true, warning: String::new(), body_html: out }
        },
        Err(e) => error_result(e.as_str()),
    }
}

/// Launches an app.
pub fn render_launch_app(form: &WmClassForm) -> (r: Ask)
    ensures
        r@ == ipc_console::line_with("intent app:"@, ipc_console::word_of(form.wm_class@)),
{
    line_of("intent app:", validate_token(form.wm_class.as_str()))
}

// ---------------------------------------------------------------------------
// Navigating
// ---------------------------------------------------------------------------

/// Places to go to.
pub const INTENT_QUICK: [&'static str; 6] = [
    "home",
    "home-tap",
    "home-hold",
    "menu",
    "settings",
    "power",
];

/// Overlays to open.
pub const OVERLAY_QUICK: [&'static str; 3] = [
    "overlay:volume",
    "overlay:network",
    "overlay:session",
];

/// Pages of the settings.
pub const SETTINGS_SLUGS: [&'static str; 11] = [
    "audio",
    "bluetooth",
    "network",
    "display",
    "controllers",
    "keybindings",
    "avcontrol",
    "widgets",
    "accessibility",
    "power",
    "system",
];

/// The keys that can be pressed.
pub const KEY_VOCAB: [&'static str; 6] = ["up", "down", "left", "right", "select", "back"];

/// A form with a name.
#[derive(Debug, Clone, PartialEq, Eq)]
pub struct NameForm {
    pub name: String,
}

/// Goes somewhere.
pub fn render_intent(form: &NameForm) -> (r: Ask)
    ensures
        r@ == ipc_console::line_with("intent "@, ipc_console::word_of(form.name@)),
{
    line_of("intent ", validate_token(form.name.as_str()))
}

/// Whether a key can be pressed.
pub open spec fn is_key(name: Seq<char>) -> bool {
    name == "up"@ || name == "down"@ || name == "left"@ || name == "right"@ || name == "select"@
        || name == "back"@
}

/// Presses a key; only one of the six.
pub fn render_key(form: &NameForm) -> (r: Ask)
    ensures
        r@ == (if is_key(text::trimmed(form.name@)) {
            ipc_console::AskView::Line("key "@ + text::trimmed(form.name@))
        } else {
            ipc_console::AskView::Shown(
                ipc_console::failure(
                    "unknown key "@ + text::debugged(text::trimmed(form.name@))
                        + " (allowed: up, down, left, right, select, back)"@,
                ),
            )
        }),
{
    let t = text::trim(form.name.as_str());
    let mut known = false;
    let mut i: usize = 0;
    while i < 6
        invariant
            i <= 6,
            known == exists|k: int| 0 <= k < i && (#[trigger] KEY_VOCAB@[k])@ == t@,
        decreases 6 - i,
    {
        if text::same_text(KEY_VOCAB[i], t.as_str()) {
            assert(KEY_VOCAB@[i as int]@ == t@);
            known = true;
        }
        i += 1;
    }
    proof {
        assert(KEY_VOCAB@[0]@ == "up"@ && KEY_VOCAB@[1]@ == "down"@ && KEY_VOCAB@[2]@ == "left"@
            && KEY_VOCAB@[3]@ == "right"@ && KEY_VOCAB@[4]@ == "select"@ && KEY_VOCAB@[5]@
            == "back"@);
    }
    if !known {
        let mut m = "unknown key ".to_owned();
        m.push_str(text::debug_text(t.as_str()).as_str());
        m.push_str(" (allowed: up, down, left, right, select, back)");
        return Ask::Shown(error_result(m.as_str()));
    }
    let mut line = "key ".to_owned();
    line.push_str(t.as_str());
    Ask::Line(line)
}

// ---------------------------------------------------------------------------
// Lines as they are typed
// ---------------------------------------------------------------------------

/// Commands that another page guards.
pub const WARN_COMMANDS: [&'static str; 5] = [
    "set-config",
    "set-binding",
    "grab",
    "release",
    "handoff",
];

/// A form with a command.
#[derive(Debug, Clone, PartialEq, Eq)]
pub struct RawForm {
    pub cmd: String,
}

/// Whether another page guards a command.
pub open spec fn is_guarded(word: Seq<char>) -> bool {
    word == "set-config"@ || word == "set-binding"@ || word == "grab"@ || word == "release"@ || word
        == "handoff"@
}

/// The warning before a command.
pub open spec fn warning_for(word: Seq<char>) -> Seq<char> {
    if is_guarded(word) {
        word
            + " belongs to another page's guarded flow (Shell ▸ Advanced/Controllers) — sending it here bypasses that page's own validation/UI. Proceeding anyway."@
    } else {
        Seq::empty()
    }
}

/// The first word of a line, which is not blank.
pub open spec fn first_word(line: Seq<char>) -> Seq<char> {
    if text::words_of(line).len() > 0 {
        text::words_of(line)[0]
    } else {
        Seq::empty()
    }
}

/// Whether a text holds a control character.
pub open spec fn has_control(s: Seq<char>) -> bool {
    exists|i: int| 0 <= i < s.len() && text::is_ctrl(#[trigger] s[i])
}

/// A line that is to be sent as it was typed, with the warning before it.
#[derive(Debug, Clone, PartialEq, Eq)]
pub struct RawLine {
    pub line: String,
    pub warning: String,
}

fn control_in(s: &str) -> (r: bool)
    ensures
        r == has_control(s@),
{
    let v = text::chars_of(s);
    let mut i: usize = 0;
    while i < v.len()
        invariant
            i <= v.len(),
            v@ == s@,
            forall|k: int| 0 <= k < i ==> !text::is_ctrl(#[trigger] s@[k]),
        decreases v.len() - i,
    {
        if text::is_control(v[i]) {
            assert(text::is_ctrl(s@[i as int]));
            return true;
        }
        i += 1;
    }
    false
}

/// Checks a line that was typed: it must not be empty, and it must be one line.
pub fn check_raw(form: &RawForm) -> (r: Result<RawLine, IpcResult>)
    ensures
        ({
            let line = text::trimmed(form.cmd@);
            if line.len() == 0 {
                r matches Err(e) && e@ == ipc_console::failure("command must not be empty"@)
            } else if has_control(line) {
                r matches Err(e) && e@ == ipc_console::failure(
                    "command must be a single line with no control characters"@,
                )
            } else {
                r matches Ok(l) && l.line@ == line && l.warning@ == warning_for(first_word(line))
            }
        }),
{
    let line = text::trim(form.cmd.as_str());
    if line.as_str().is_empty() {
        return Err(error_result("command must not be empty"));
    }
    if control_in(line.as_str()) {
        return Err(error_result("command must be a single line with no control characters"));
    }
    let words = text::words(line.as_str());
    let word = if words.len() > 0 {
        words[0].clone()
    } else {
        String::new()
    };
    assert(word@ =~= first_word(line@));
    let w = word.as_str();
    let guarded = text::same_text(w, WARN_COMMANDS[0]) || text::same_text(w, WARN_COMMANDS[1])
        || text::same_text(w, WARN_COMMANDS[2]) || text::same_text(w, WARN_COMMANDS[3])
        || text::same_text(w, WARN_COMMANDS[4]);
    let warning = if guarded {
        let mut m = word;
        m.push_str(
            " belongs to another page's guarded flow (Shell ▸ Advanced/Controllers) — sending it here bypasses that page's own validation/UI. Proceeding anyway.",
        );
        m
    } else {
        String::new()
    };
    Ok(RawLine { line, warning })
}

/// What is shown of the reply to a line that was typed, with the warning before it.
pub fn render_raw(line: &RawLine, reply: Result<String, String>) -> (r: IpcResult)
    ensures
        r.warning@ == line.warning@,
        match reply {
            Ok(s) => r.ok && r.body_html@ == html::pre(
                ipc_console::laid_out(s@, crate::json::json_read(s@)),
            ),
            Err(e) => !r.ok && r.body_html@ == html::pre(e@),
        },
{
    match reply {
        Ok(s) => IpcResult {
            ok: true,
            warning: line.warning.clone(),
            body_html: pretty_block(s.as_str()),
        },
        Err(e) => IpcResult {
            ok: false,
            warning: line.warning.clone(),
            body_html: html::pre_block(e.as_str()),
        },
    }
}

// ---------------------------------------------------------------------------
// Laws
// ---------------------------------------------------------------------------

/// An app is shown with its name and its comment, and its button sends its own class.
pub proof fn law_buttons_launch_their_app(a: AppEntry)
    ensures
        ({
            let html = app_html(a);
            &&& text::has_text(html, "<tr><td>"@ + html::escaped(a.name@) + "</td>"@)
            &&& text::has_text(html, "class=\"muted\">"@ + html::escaped(a.comment@) + "</td>"@)
            &&& text::has_text(
                html,
                "name=\"wm_class\" value=\""@ + html::escaped(a.wm_class@) + "\">"@,
            )
            &&& text::has_text(html, "<form hx-post=\"/remote/launcher/launch\""@)
        }),
{
    let p = "<tr><td>"@;
    let q = "</td><td class=\"muted\">"@;
    let r = "</td><td>\n                       <form hx-post=\"/remote/launcher/launch\" hx-disabled-elt=\"find button\" hx-target=\"#launcher-result\" hx-swap=\"innerHTML\" class=\"inline-form\">\n                         <input type=\"hidden\" name=\"wm_class\" value=\""@;
    let s = "\">\n                         <button class=\"btn-mutate\" type=\"submit\">Launch</button>\n                       </form></td></tr>"@;
    reveal_strlit("<tr><td>");
    reveal_strlit("</td><td class=\"muted\">");
    reveal_strlit(
        "</td><td>\n                       <form hx-post=\"/remote/launcher/launch\" hx-disabled-elt=\"find button\" hx-target=\"#launcher-result\" hx-swap=\"innerHTML\" class=\"inline-form\">\n                         <input type=\"hidden\" name=\"wm_class\" value=\"",
    );
    reveal_strlit(
        "\">\n                         <button class=\"btn-mutate\" type=\"submit\">Launch</button>\n                       </form></td></tr>",
    );
    reveal_strlit("</td>");
    reveal_strlit("class=\"muted\">");
    reveal_strlit("name=\"wm_class\" value=\"");
    reveal_strlit("\">");
    reveal_strlit("<form hx-post=\"/remote/launcher/launch\"");
    let n = html::escaped(a.name@);
    let c = html::escaped(a.comment@);
    let w = html::escaped(a.wm_class@);
    let html = p + n + q + c + r + w + s;
    assert(html =~= app_html(a));
    let w1 = "<tr><td>"@ + n + "</td>"@;
    assert(html.subrange(0, w1.len() as int) =~= w1);
    assert(text::occurs_at(html, w1, 0));
    let w2 = "class=\"muted\">"@ + c + "</td>"@;
    let at2 = p.len() + n.len() + q.len() - "class=\"muted\">"@.len();
    assert(html.subrange(at2, at2 + w2.len()) =~= w2);
    assert(text::occurs_at(html, w2, at2));
    let w3 = "name=\"wm_class\" value=\""@ + w + "\">"@;
    let at3 = p.len() + n.len() + q.len() + c.len() + r.len() - "name=\"wm_class\" value=\""@.len();
    assert(html.subrange(at3, at3 + w3.len()) =~= w3);
    assert(text::occurs_at(html, w3, at3));
    let w4 = "<form hx-post=\"/remote/launcher/launch\""@;
    let at4 = (p.len() + n.len() + q.len() + c.len() + 33) as int;
    assert(html.subrange(at4, at4 + w4.len()) =~= w4);
    assert(text::occurs_at(html, w4, at4));
}

/// The table shows every app, in its order.
pub proof fn law_every_app_is_shown(apps: Seq<AppEntry>)
    ensures
        app_list(apps).ok,
        app_list(apps).warning.len() == 0,
        apps.len() == 0 ==> app_list(apps).body_html
            == "<p class=\"muted\">No launchable apps found.</p>"@,
        apps.len() > 0 ==> app_list(apps).body_html
            == "<table class=\"tools-table\"><thead><tr><th>Name</th><th>Comment</th><th></th></tr></thead><tbody>"@
            + text::joined(apps.map_values(|a: AppEntry| app_html(a)), Seq::empty())
            + "</tbody></table>"@,
{
    lemma_rows(apps);
}

proof fn lemma_rows(apps: Seq<AppEntry>)
    ensures
        apps_html(apps)
            == "<table class=\"tools-table\"><thead><tr><th>Name</th><th>Comment</th><th></th></tr></thead><tbody>"@
            + text::joined(apps.map_values(|a: AppEntry| app_html(a)), Seq::empty()),
    decreases apps.len(),
{
    let head =
        "<table class=\"tools-table\"><thead><tr><th>Name</th><th>Comment</th><th></th></tr></thead><tbody>"@;
    let rows = apps.map_values(|a: AppEntry| app_html(a));
    if apps.len() > 0 {
        let rest = apps.drop_last();
        lemma_rows(rest);
        assert(rows.drop_last() =~= rest.map_values(|a: AppEntry| app_html(a)));
        assert(rows.last() == app_html(apps.last()));
        if apps.len() == 1 {
            assert(text::joined(rest.map_values(|a: AppEntry| app_html(a)), Seq::empty())
                =~= Seq::empty());
            assert(apps_html(apps) =~= head + rows[0]);
        } else {
            assert(apps_html(apps) =~= head + text::joined(rows, Seq::empty()));
        }
    } else {
        assert(apps_html(apps) =~= head + text::joined(rows, Seq::empty()));
    }
}

/// Six keys can be pressed, and no other.
pub proof fn law_six_keys(name: Seq<char>)
    ensures
        is_key(name) <==> seq!["up"@, "down"@, "left"@, "right"@, "select"@, "back"@].contains(name),
{
    let all = seq!["up"@, "down"@, "left"@, "right"@, "select"@, "back"@];
    assert(all[0] == "up"@ && all[1] == "down"@ && all[2] == "left"@ && all[3] == "right"@ && all[4]
        == "select"@ && all[5] == "back"@);
}

/// A line that is typed is warned of exactly if its first word is a command that another
/// page guards, and the warning names it.
pub proof fn law_guarded_commands_are_warned_of(word: Seq<char>, rest: Seq<char>)
    requires
        word.len() > 0,
        forall|i: int| 0 <= i < word.len() ==> !text::is_white(#[trigger] word[i]),
        rest.len() == 0 || text::is_white(rest[0]),
    ensures
        first_word(word + rest) == word,
        warning_for(word).len() > 0 <==> seq![
            "set-config"@,
            "set-binding"@,
            "grab"@,
            "release"@,
            "handoff"@,
        ].contains(word),
        warning_for(word).len() > 0 ==> warning_for(word).take(word.len() as int) == word,
{
    let line = word + rest;
    assert(line[0] == word[0] && !text::is_white(word[0]));
    assert(text::trimmed_start(line) == line);
    text::lemma_word_len(line);
    let n = text::word_len(line);
    if n < word.len() {
        assert(line[n] == word[n] && !text::is_white(word[n]));
    } else if n > word.len() {
        assert(line[word.len() as int] == rest[0]);
    }
    assert(line.take(word.len() as int) =~= word);
    let all = seq!["set-config"@, "set-binding"@, "grab"@, "release"@, "handoff"@];
    assert(all[0] == "set-config"@ && all[1] == "set-binding"@ && all[2] == "grab"@ && all[3]
        == "release"@ && all[4] == "handoff"@);
    if is_guarded(word) {
        assert(warning_for(word).take(word.len() as int) =~= word);
    }
}

/// A text with a line feed, a carriage return, a tab or an escape holds a control
/// character, and one of printable ASCII holds none.
pub proof fn law_control_characters_are_seen(s: Seq<char>)
    ensures
        s.contains('\n') || s.contains('\r') || s.contains('\t') || s.contains('\u{1b}') ==> has_control(
            s,
        ),
        (forall|i: int| 0 <= i < s.len() ==> ' ' <= #[trigger] s[i] <= '~') ==> !has_control(s),
{
    if s.contains('\n') {
        let i = choose|i: int| 0 <= i < s.len() && s[i] == '\n';
        assert(text::is_ctrl(s[i]));
    }
    if s.contains('\r') {
        let i = choose|i: int| 0 <= i < s.len() && s[i] == '\r';
        assert(text::is_ctrl(s[i]));
    }
    if s.contains('\t') {
        let i = choose|i: int| 0 <= i < s.len() && s[i] == '\t';
        assert(text::is_ctrl(s[i]));
    }
    if s.contains('\u{1b}') {
        let i = choose|i: int| 0 <= i < s.len() && s[i] == '\u{1b}';
        assert(text::is_ctrl(s[i]));
    }
}

} // verus!
