//! The units that the panel can restart, the screenshots that it shows, and where
//! old paths lead.

use crate::config::{daemon_unit, panel_unit, shell_unit, SLUG};
use crate::text;
use vstd::prelude::*;

verus! {

// ---------------------------------------------------------------------------
// Units
// ---------------------------------------------------------------------------

/// The unit behind a key. There are three; no other unit can be named.
pub open spec fn unit_named(key: Seq<char>) -> Option<Seq<char>> {
    if key == "daemon"@ {
        Some(SLUG@ + "-input.service"@)
    } else if key == "shell"@ {
        Some(SLUG@ + "-quickshell.service"@)
    } else if key == "panel"@ {
        Some(SLUG@ + "-panel.service"@)
    } else {
        None
    }
}

/// The unit behind a key, or what is said of an unknown one.
pub fn unit_for(key: &str) -> (r: Result<String, String>)
    ensures
        match unit_named(key@) {
            Some(u) => r matches Ok(s) && s@ == u,
            None => r matches Err(m) && m@ == "unknown unit key "@ + text::debugged(key@),
        },
{
    if text::same_text(key, "daemon") {
        Ok(daemon_unit())
    } else if text::same_text(key, "shell") {
        Ok(shell_unit())
    } else if text::same_text(key, "panel") {
        Ok(panel_unit())
    } else {
        let mut m = "unknown unit key ".to_owned();
        m.push_str(text::debug_text(key).as_str());
        Err(m)
    }
}

/// A unit, as the panel shows it.
#[derive(Debug, Clone, PartialEq, Eq)]
pub struct UnitView {
    pub key: &'static str,
    pub label: &'static str,
    pub unit: String,
    pub state: String,
    /// What is asked before it is restarted.
    pub confirm: String,
}

/// What is asked before a unit is restarted. Restarting the panel takes the page
/// away that asks.
pub open spec fn confirm_text(key: Seq<char>, unit: Seq<char>) -> Seq<char> {
    "Restart "@ + unit + (if key == "panel"@ {
        " now? This is the panel serving THIS page — it will disconnect immediately. Reload the page after a few seconds to reconnect."@
    } else {
        " now?"@
    })
}

/// A unit in a state, as the panel shows it.
pub fn unit_view(key: &'static str, label: &'static str, unit: String, state: String) -> (r:
    UnitView)
    ensures
        r.key@ == key@,
        r.label@ == label@,
        r.unit == unit,
        r.state == state,
        r.confirm@ == confirm_text(key@, unit@),
{
    let mut confirm = "Restart ".to_owned();
    confirm.push_str(unit.as_str());
    if text::same_text(key, "panel") {
        confirm.push_str(
            " now? This is the panel serving THIS page — it will disconnect immediately. Reload the page after a few seconds to reconnect.",
        );
    } else {
        confirm.push_str(" now?");
    }
    UnitView { key, label, unit, state, confirm }
}

/// What is said after a unit was restarted.
#[derive(Debug, Clone, PartialEq, Eq)]
pub struct ServicesResult {
    pub ok: bool,
    pub message: String,
}

/// What is said after a unit was restarted, given what the command put out or why it
/// failed.
pub fn restarted(unit: &str, outcome: Result<String, String>) -> (r: ServicesResult)
    ensures
        match outcome {
            Ok(out) => r.ok && r.message@ == "restarted "@ + unit@ + "\n"@ + out@,
            Err(e) => !r.ok && r.message@ == "restart "@ + unit@ + " failed: "@ + e@,
        },
{
    match outcome {
        Ok(out) => {
            let mut m = "restarted ".to_owned();
            m.push_str(unit);
            m.push_str("\n");
            m.push_str(out.as_str());
            ServicesResult { ok: true, message: m }
        },
        Err(e) => {
            let mut m = "restart ".to_owned();
            m.push_str(unit);
            m.push_str(" failed: ");
            m.push_str(e.as_str());
            ServicesResult { ok: false, message: m }
        },
    }
}

/// Only the three units of the project can be restarted, whatever key is sent.
pub proof fn law_no_other_unit(key: Seq<char>)
    requires
        unit_named(key) is Some,
    ensures
        unit_named(key)->Some_0 == SLUG@ + "-input.service"@ || unit_named(key)->Some_0 == SLUG@
            + "-quickshell.service"@ || unit_named(key)->Some_0 == SLUG@ + "-panel.service"@,
{
}

// ---------------------------------------------------------------------------
// Screenshots
// ---------------------------------------------------------------------------

/// Where a screenshot comes from.
#[derive(Debug, Clone, PartialEq, Eq)]
pub struct Provenance {
    pub sha: String,
    pub branch: String,
    pub version: String,
    pub captured_at: String,
}

/// Why there is no screenshot.
#[derive(Debug, Clone, PartialEq, Eq)]
pub struct NoScreenshot {
    /// Whether the panel knows where to ask at all.
    pub configured: bool,
    pub error: String,
}

/// What is shown after a capture.
#[derive(Debug, Clone, PartialEq, Eq)]
pub struct ScreenshotResult {
    /// Whether the picture can be shown.
    pub ok: bool,
    pub message: String,
    pub sha: String,
    pub branch: String,
    pub version: String,
    pub captured_at: String,
    /// Milliseconds of the wall clock, so that no old picture is shown.
    pub cache_bust: u128,
}

/// What is shown after a capture. The picture is shown only if the capture went
/// well.
pub fn render_capture(shot: Result<Provenance, NoScreenshot>, now_ms: u128) -> (r: ScreenshotResult)
    ensures
        match shot {
            Ok(p) => r.ok && r.message@.len() == 0 && r.sha == p.sha && r.branch == p.branch
                && r.version == p.version && r.captured_at == p.captured_at && r.cache_bust
                == now_ms,
            Err(e) => !r.ok && r.message@ == "HTTP bridge "@ + (if e.configured {
                "unreachable"@
            } else {
                "not configured"@
            }) + " — see the banner above. ("@ + e.error@ + ")"@ && r.sha@.len() == 0
                && r.branch@.len() == 0 && r.version@.len() == 0 && r.captured_at@.len() == 0
                && r.cache_bust == 0,
        },
{
    match shot {
        Ok(p) => ScreenshotResult {
            ok: true,
            message: String::new(),
            sha: p.sha,
            branch: p.branch,
            version: p.version,
            captured_at: p.captured_at,
            cache_bust: now_ms,
        },
        Err(e) => {
            let mut m = "HTTP bridge ".to_owned();
            if e.configured {
                m.push_str("unreachable");
            } else {
                m.push_str("not configured");
            }
            m.push_str(" — see the banner above. (");
            m.push_str(e.error.as_str());
            m.push_str(")");
            ScreenshotResult {
                ok: false,
                message: m,
                sha: String::new(),
                branch: String::new(),
                version: String::new(),
                captured_at: String::new(),
                cache_bust: 0,
            }
        },
    }
}

/// What is answered in the place of a picture.
pub fn image_unavailable(error: &str) -> (r: (u16, String))
    ensures
        r.0 == 503,
        r.1@ == "screenshot unavailable: "@ + error@,
{
    let mut m = "screenshot unavailable: ".to_owned();
    m.push_str(error);
    (503, m)
}

// ---------------------------------------------------------------------------
// Old paths
// ---------------------------------------------------------------------------

/// Where an old path leads.
pub open spec fn moved_to(path: Seq<char>) -> Option<Seq<char>> {
    if path == "/dashboard"@ {
        Some("/"@)
    } else if path == "/processes"@ {
        Some("/system/processes"@)
    } else if path == "/logs"@ {
        Some("/system/logs"@)
    } else if path == "/settings"@ || path == "/media"@ {
        Some("/shell/appearance"@)
    } else if path == "/widgets"@ {
        Some("/shell/widgets"@)
    } else if path == "/tools"@ {
        Some("/remote/navigation"@)
    } else if path == "/controllers"@ {
        Some("/devices/controllers"@)
    } else if path == "/cec"@ {
        Some("/devices/cec"@)
    } else if path == "/dev"@ {
        Some("/dev/recovery"@)
    } else {
        None
    }
}

/// Where an old path leads.
pub fn redirect(path: &str) -> (r: Option<&'static str>)
    ensures
        match moved_to(path@) {
            Some(t) => r matches Some(s) && s@ == t,
            None => r is None,
        },
{
    if text::same_text(path, "/dashboard") {
        Some("/")
    } else if text::same_text(path, "/processes") {
        Some("/system/processes")
    } else if text::same_text(path, "/logs") {
        Some("/system/logs")
    } else if text::same_text(path, "/settings") || text::same_text(path, "/media") {
        Some("/shell/appearance")
    } else if text::same_text(path, "/widgets") {
        Some("/shell/widgets")
    } else if text::same_text(path, "/tools") {
        Some("/remote/navigation")
    } else if text::same_text(path, "/controllers") {
        Some("/devices/controllers")
    } else if text::same_text(path, "/cec") {
        Some("/devices/cec")
    } else if text::same_text(path, "/dev") {
        Some("/dev/recovery")
    } else {
        None
    }
}

// ---------------------------------------------------------------------------
// Laws
// ---------------------------------------------------------------------------

/// Each key stands for its own unit, and no other key for any.
pub proof fn law_keys_name_their_unit(key: Seq<char>)
    ensures
        key == "daemon"@ ==> unit_named(key) == Some("tv-shell"@ + "-input.service"@),
        key == "shell"@ ==> unit_named(key) == Some("tv-shell"@ + "-quickshell.service"@),
        key == "panel"@ ==> unit_named(key) == Some("tv-shell"@ + "-panel.service"@),
        key != "daemon"@ && key != "shell"@ && key != "panel"@ ==> unit_named(key) is None,
{
    reveal_strlit("daemon");
    reveal_strlit("shell");
    reveal_strlit("panel");
    assert("daemon"@.len() == 6 && "shell"@.len() == 5 && "shell"@[0] == 's' && "panel"@[0]
        == 'p');
}

/// What is asked before a restart names the unit, and warns of the panel alone that the page
/// goes with it.
pub proof fn law_restarts_are_asked_for(key: Seq<char>, unit: Seq<char>)
    ensures
        key != "panel"@ ==> confirm_text(key, unit) == "Restart "@ + unit + " now?"@,
        key == "panel"@ ==> confirm_text(key, unit) == "Restart "@ + unit
            + " now? This is the panel serving THIS page — it will disconnect immediately. Reload the page after a few seconds to reconnect."@,
{
}

/// Each old path leads to the page that took its place, and no other path leads anywhere.
pub proof fn law_old_paths_lead_on(path: Seq<char>)
    ensures
        path == "/dashboard"@ ==> moved_to(path) == Some("/"@),
        path == "/processes"@ ==> moved_to(path) == Some("/system/processes"@),
        path == "/logs"@ ==> moved_to(path) == Some("/system/logs"@),
        path == "/settings"@ || path == "/media"@ ==> moved_to(path) == Some("/shell/appearance"@),
        path == "/widgets"@ ==> moved_to(path) == Some("/shell/widgets"@),
        path == "/tools"@ ==> moved_to(path) == Some("/remote/navigation"@),
        path == "/controllers"@ ==> moved_to(path) == Some("/devices/controllers"@),
        path == "/cec"@ ==> moved_to(path) == Some("/devices/cec"@),
        path == "/dev"@ ==> moved_to(path) == Some("/dev/recovery"@),
        !seq![
            "/dashboard"@,
            "/processes"@,
            "/logs"@,
            "/settings"@,
            "/media"@,
            "/widgets"@,
            "/tools"@,
            "/controllers"@,
            "/cec"@,
            "/dev"@,
        ].contains(path) ==> moved_to(path) is None,
{
    reveal_strlit("/dashboard");
    reveal_strlit("/processes");
    reveal_strlit("/logs");
    reveal_strlit("/settings");
    reveal_strlit("/media");
    reveal_strlit("/widgets");
    reveal_strlit("/tools");
    reveal_strlit("/controllers");
    reveal_strlit("/cec");
    reveal_strlit("/dev");
    assert("/dashboard"@.len() == 10 && "/dashboard"@[1] == 'd');
    assert("/processes"@.len() == 10 && "/processes"@[1] == 'p');
    assert("/logs"@.len() == 5);
    assert("/settings"@.len() == 9);
    assert("/media"@.len() == 6 && "/media"@[1] == 'm');
    assert("/widgets"@.len() == 8);
    assert("/tools"@.len() == 6 && "/tools"@[1] == 't');
    assert("/controllers"@.len() == 12);
    assert("/cec"@.len() == 4 && "/cec"@[1] == 'c');
    assert("/dev"@.len() == 4 && "/dev"@[1] == 'd');
    let all = seq![
        "/dashboard"@,
        "/processes"@,
        "/logs"@,
        "/settings"@,
        "/media"@,
        "/widgets"@,
        "/tools"@,
        "/controllers"@,
        "/cec"@,
        "/dev"@,
    ];
    assert(all[0] == "/dashboard"@ && all[1] == "/processes"@ && all[2] == "/logs"@ && all[3]
        == "/settings"@ && all[4] == "/media"@ && all[5] == "/widgets"@ && all[6] == "/tools"@
        && all[7] == "/controllers"@ && all[8] == "/cec"@ && all[9] == "/dev"@);
}

} // verus!
