//! The routes of the panel, and which of them are there.
//!
//! A route that is not there is not refused: it does not exist. The links of the
//! navigation follow the same gates.

use crate::capabilities;
use crate::capabilities::{CapabilitySnapshot, Gate};
use crate::text;
use vstd::prelude::*;

verus! {

/// How a route is called.
#[derive(Debug, Clone, Copy, PartialEq, Eq, Structural)]
pub enum Method {
    Get,
    Post,
}

/// A route of the panel.
#[derive(Debug, Clone, Copy)]
pub struct Route {
    pub method: Method,
    pub path: &'static str,
    /// What it needs of the node.
    pub gate: Gate,
    /// Whether it is as good as being root, and the operator has to allow it.
    pub dangerous: bool,
}

/// A route of the panel.
pub struct RouteRule {
    pub method: Method,
    pub path: Seq<char>,
    pub gate: Gate,
    pub dangerous: bool,
}

impl View for Route {
    type V = RouteRule;

    open spec fn view(&self) -> RouteRule {
        RouteRule {
            method: self.method,
            path: self.path@,
            gate: self.gate,
            dangerous: self.dangerous,
        }
    }
}

/// What routes say.
pub open spec fn rules_of(routes: Seq<Route>) -> Seq<RouteRule> {
    Seq::new(routes.len(), |i: int| routes[i]@)
}

/// A route with a path.
pub open spec fn rule(method: Method, path: Seq<char>, gate: Gate, dangerous: bool) -> RouteRule {
    RouteRule { method, path, gate, dangerous }
}

fn route(method: Method, path: &'static str, gate: Gate, dangerous: bool) -> (r: Route)
    ensures
        r@ == rule(method, path@, gate, dangerous),
{
    Route { method, path, gate, dangerous }
}

/// The routes that are always there: they need no node. Without them the panel would
/// be of no use when the node is down.
#[verifier::opaque]
pub open spec fn recovery_rules() -> Seq<RouteRule> {
    seq![
        rule(Method::Get, "/"@, Gate::Recovery, false),
        rule(Method::Get, "/dashboard"@, Gate::Recovery, false),
        rule(Method::Get, "/dashboard/tiles"@, Gate::Recovery, false),
        rule(Method::Get, "/dashboard/updates-tile"@, Gate::Recovery, false),
        rule(Method::Get, "/processes"@, Gate::Recovery, false),
        rule(Method::Post, "/processes/restart/{key}"@, Gate::Recovery, false),
        rule(Method::Post, "/processes/updates/refresh"@, Gate::Recovery, false),
        rule(Method::Get, "/processes/updates/job"@, Gate::Recovery, false),
        rule(Method::Get, "/media"@, Gate::Recovery, false),
        rule(Method::Post, "/media/wallpaper/upload"@, Gate::Recovery, false),
        rule(Method::Post, "/media/wallpaper/delete"@, Gate::Recovery, false),
        rule(Method::Get, "/media/wallpaper/file"@, Gate::Recovery, false),
        rule(Method::Get, "/logs"@, Gate::Recovery, false),
        rule(Method::Get, "/logs/view"@, Gate::Recovery, false),
        rule(Method::Get, "/dev"@, Gate::Recovery, false),
        rule(Method::Post, "/dev/restart-daemon"@, Gate::Recovery, false),
        rule(Method::Post, "/dev/restart-shell"@, Gate::Recovery, false),
        rule(Method::Get, "/nav/daemon-status"@, Gate::Recovery, false),
        rule(Method::Get, "/login"@, Gate::Recovery, false),
        rule(Method::Post, "/login"@, Gate::Recovery, false),
        rule(Method::Get, "/assets/htmx.min.js"@, Gate::Recovery, false),
        rule(Method::Get, "/assets/style.css"@, Gate::Recovery, false),
    ]
}

fn recovery_routes() -> (r: Vec<Route>)
    ensures
        rules_of(r@) == recovery_rules(),
{
    let r = vec![
        route(Method::Get, "/", Gate::Recovery, false),
        route(Method::Get, "/dashboard", Gate::Recovery, false),
        route(Method::Get, "/dashboard/tiles", Gate::Recovery, false),
        route(Method::Get, "/dashboard/updates-tile", Gate::Recovery, false),
        route(Method::Get, "/processes", Gate::Recovery, false),
        route(Method::Post, "/processes/restart/{key}", Gate::Recovery, false),
        route(Method::Post, "/processes/updates/refresh", Gate::Recovery, false),
        route(Method::Get, "/processes/updates/job", Gate::Recovery, false),
        route(Method::Get, "/media", Gate::Recovery, false),
        route(Method::Post, "/media/wallpaper/upload", Gate::Recovery, false),
        route(Method::Post, "/media/wallpaper/delete", Gate::Recovery, false),
        route(Method::Get, "/media/wallpaper/file", Gate::Recovery, false),
        route(Method::Get, "/logs", Gate::Recovery, false),
        route(Method::Get, "/logs/view", Gate::Recovery, false),
        route(Method::Get, "/dev", Gate::Recovery, false),
        route(Method::Post, "/dev/restart-daemon", Gate::Recovery, false),
        route(Method::Post, "/dev/restart-shell", Gate::Recovery, false),
        route(Method::Get, "/nav/daemon-status", Gate::Recovery, false),
        route(Method::Get, "/login", Gate::Recovery, false),
        route(Method::Post, "/login", Gate::Recovery, false),
        route(Method::Get, "/assets/htmx.min.js", Gate::Recovery, false),
        route(Method::Get, "/assets/style.css", Gate::Recovery, false),
    ];
    proof {
        reveal(recovery_rules);
        assert(rules_of(r@) =~= recovery_rules());
    }
    r
}

/// The routes that need a node that answers.
#[verifier::opaque]
pub open spec fn node_rules() -> Seq<RouteRule> {
    seq![
        rule(Method::Get, "/tools"@, Gate::Node, false),
        rule(Method::Post, "/tools/intent"@, Gate::Node, false),
        rule(Method::Post, "/tools/key"@, Gate::Node, false),
        rule(Method::Post, "/tools/apps/list"@, Gate::Node, false),
        rule(Method::Post, "/tools/apps/launch"@, Gate::Node, false),
        rule(Method::Post, "/tools/apps/recents"@, Gate::Node, false),
        rule(Method::Post, "/tools/bt/power-status"@, Gate::Node, false),
        rule(Method::Post, "/tools/bt/power-on"@, Gate::Node, false),
        rule(Method::Post, "/tools/bt/power-off"@, Gate::Node, false),
        rule(Method::Post, "/tools/bt/scan-on"@, Gate::Node, false),
        rule(Method::Post, "/tools/bt/scan-off"@, Gate::Node, false),
        rule(Method::Post, "/tools/bt/list"@, Gate::Node, false),
        rule(Method::Post, "/tools/bt/action"@, Gate::Node, false),
        rule(Method::Post, "/tools/net/status"@, Gate::Node, false),
        rule(Method::Post, "/tools/net/wifi-list"@, Gate::Node, false),
        rule(Method::Post, "/tools/net/wifi-rescan"@, Gate::Node, false),
        rule(Method::Post, "/tools/net/throughput"@, Gate::Node, false),
        rule(Method::Post, "/tools/net/ping"@, Gate::Node, false),
        rule(Method::Post, "/tools/power/can-suspend"@, Gate::Node, false),
        rule(Method::Post, "/tools/power/battery"@, Gate::Node, false),
        rule(Method::Post, "/tools/sys/status"@, Gate::Node, false),
        rule(Method::Post, "/tools/sys/metrics"@, Gate::Node, false),
        rule(Method::Post, "/tools/sys/storage"@, Gate::Node, false),
        rule(Method::Post, "/tools/sys/build-info"@, Gate::Node, false),
    ]
}

fn node_routes() -> (r: Vec<Route>)
    ensures
        rules_of(r@) == node_rules(),
{
    let r = vec![
        route(Method::Get, "/tools", Gate::Node, false),
        route(Method::Post, "/tools/intent", Gate::Node, false),
        route(Method::Post, "/tools/key", Gate::Node, false),
        route(Method::Post, "/tools/apps/list", Gate::Node, false),
        route(Method::Post, "/tools/apps/launch", Gate::Node, false),
        route(Method::Post, "/tools/apps/recents", Gate::Node, false),
        route(Method::Post, "/tools/bt/power-status", Gate::Node, false),
        route(Method::Post, "/tools/bt/power-on", Gate::Node, false),
        route(Method::Post, "/tools/bt/power-off", Gate::Node, false),
        route(Method::Post, "/tools/bt/scan-on", Gate::Node, false),
        route(Method::Post, "/tools/bt/scan-off", Gate::Node, false),
        route(Method::Post, "/tools/bt/list", Gate::Node, false),
        route(Method::Post, "/tools/bt/action", Gate::Node, false),
        route(Method::Post, "/tools/net/status", Gate::Node, false),
        route(Method::Post, "/tools/net/wifi-list", Gate::Node, false),
        route(Method::Post, "/tools/net/wifi-rescan", Gate::Node, false),
        route(Method::Post, "/tools/net/throughput", Gate::Node, false),
        route(Method::Post, "/tools/net/ping", Gate::Node, false),
        route(Method::Post, "/tools/power/can-suspend", Gate::Node, false),
        route(Method::Post, "/tools/power/battery", Gate::Node, false),
        route(Method::Post, "/tools/sys/status", Gate::Node, false),
        route(Method::Post, "/tools/sys/metrics", Gate::Node, false),
        route(Method::Post, "/tools/sys/storage", Gate::Node, false),
        route(Method::Post, "/tools/sys/build-info", Gate::Node, false),
    ];
    proof {
        reveal(node_rules);
        assert(rules_of(r@) =~= node_rules());
    }
    r
}

/// The routes around gamepads.
#[verifier::opaque]
pub open spec fn controllers_rules() -> Seq<RouteRule> {
    seq![
        rule(Method::Post, "/tools/sys/controllerdb-status"@, Gate::Controllers, false),
        rule(Method::Post, "/tools/sys/controllerdb-refresh"@, Gate::Controllers, false),
        rule(Method::Get, "/controllers"@, Gate::Controllers, false),
        rule(Method::Post, "/controllers/grab"@, Gate::Controllers, false),
        rule(Method::Post, "/controllers/release"@, Gate::Controllers, false),
        rule(Method::Post, "/controllers/handoff"@, Gate::Controllers, false),
        rule(Method::Post, "/controllers/pad/battery"@, Gate::Controllers, false),
        rule(Method::Post, "/controllers/pad/rumble-status"@, Gate::Controllers, false),
        rule(Method::Post, "/controllers/pad/rumble"@, Gate::Controllers, false),
        rule(Method::Post, "/controllers/input-devices"@, Gate::Controllers, false),
        rule(Method::Post, "/controllers/bindings/set"@, Gate::Controllers, false),
        rule(Method::Post, "/controllers/bindings/capture"@, Gate::Controllers, false),
        rule(Method::Post, "/controllers/bindings/capture-cancel"@, Gate::Controllers, false),
        rule(Method::Post, "/controllers/active-game/set"@, Gate::Controllers, false),
        rule(Method::Post, "/controllers/active-game/clear"@, Gate::Controllers, false),
        rule(Method::Post, "/controllers/controllerdb/status"@, Gate::Controllers, false),
        rule(Method::Post, "/controllers/controllerdb/refresh"@, Gate::Controllers, false),
    ]
}

fn controllers_routes() -> (r: Vec<Route>)
    ensures
        rules_of(r@) == controllers_rules(),
{
    let r = vec![
        route(Method::Post, "/tools/sys/controllerdb-status", Gate::Controllers, false),
        route(Method::Post, "/tools/sys/controllerdb-refresh", Gate::Controllers, false),
        route(Method::Get, "/controllers", Gate::Controllers, false),
        route(Method::Post, "/controllers/grab", Gate::Controllers, false),
        route(Method::Post, "/controllers/release", Gate::Controllers, false),
        route(Method::Post, "/controllers/handoff", Gate::Controllers, false),
        route(Method::Post, "/controllers/pad/battery", Gate::Controllers, false),
        route(Method::Post, "/controllers/pad/rumble-status", Gate::Controllers, false),
        route(Method::Post, "/controllers/pad/rumble", Gate::Controllers, false),
        route(Method::Post, "/controllers/input-devices", Gate::Controllers, false),
        route(Method::Post, "/controllers/bindings/set", Gate::Controllers, false),
        route(Method::Post, "/controllers/bindings/capture", Gate::Controllers, false),
        route(Method::Post, "/controllers/bindings/capture-cancel", Gate::Controllers, false),
        route(Method::Post, "/controllers/active-game/set", Gate::Controllers, false),
        route(Method::Post, "/controllers/active-game/clear", Gate::Controllers, false),
        route(Method::Post, "/controllers/controllerdb/status", Gate::Controllers, false),
        route(Method::Post, "/controllers/controllerdb/refresh", Gate::Controllers, false),
    ];
    proof {
        reveal(controllers_rules);
        assert(rules_of(r@) =~= controllers_rules());
    }
    r
}

/// The routes around HDMI-CEC.
#[verifier::opaque]
pub open spec fn cec_rules() -> Seq<RouteRule> {
    seq![
        rule(Method::Get, "/cec"@, Gate::Cec, false),
        rule(Method::Post, "/cec/scan"@, Gate::Cec, false),
        rule(Method::Post, "/cec/device"@, Gate::Cec, false),
        rule(Method::Post, "/cec/active-source"@, Gate::Cec, false),
        rule(Method::Post, "/cec/power-on"@, Gate::Cec, false),
        rule(Method::Post, "/cec/power-off"@, Gate::Cec, false),
        rule(Method::Post, "/cec/test"@, Gate::Cec, false),
        rule(Method::Post, "/cec/osd-name"@, Gate::Cec, false),
        rule(Method::Post, "/cec/recover/restart-daemon"@, Gate::Cec, false),
    ]
}

fn cec_routes() -> (r: Vec<Route>)
    ensures
        rules_of(r@) == cec_rules(),
{
    let r = vec![
        route(Method::Get, "/cec", Gate::Cec, false),
        route(Method::Post, "/cec/scan", Gate::Cec, false),
        route(Method::Post, "/cec/device", Gate::Cec, false),
        route(Method::Post, "/cec/active-source", Gate::Cec, false),
        route(Method::Post, "/cec/power-on", Gate::Cec, false),
        route(Method::Post, "/cec/power-off", Gate::Cec, false),
        route(Method::Post, "/cec/test", Gate::Cec, false),
        route(Method::Post, "/cec/osd-name", Gate::Cec, false),
        route(Method::Post, "/cec/recover/restart-daemon", Gate::Cec, false),
    ];
    proof {
        reveal(cec_rules);
        assert(rules_of(r@) =~= cec_rules());
    }
    r
}

/// The routes around widgets.
#[verifier::opaque]
pub open spec fn widgets_rules() -> Seq<RouteRule> {
    seq![
        rule(Method::Get, "/widgets"@, Gate::Widgets, false),
        rule(Method::Post, "/widgets/save"@, Gate::Widgets, false),
        rule(Method::Post, "/widgets/reorder/{id}/up"@, Gate::Widgets, false),
        rule(Method::Post, "/widgets/reorder/{id}/down"@, Gate::Widgets, false),
    ]
}

fn widgets_routes() -> (r: Vec<Route>)
    ensures
        rules_of(r@) == widgets_rules(),
{
    let r = vec![
        route(Method::Get, "/widgets", Gate::Widgets, false),
        route(Method::Post, "/widgets/save", Gate::Widgets, false),
        route(Method::Post, "/widgets/reorder/{id}/up", Gate::Widgets, false),
        route(Method::Post, "/widgets/reorder/{id}/down", Gate::Widgets, false),
    ];
    proof {
        reveal(widgets_rules);
        assert(rules_of(r@) =~= widgets_rules());
    }
    r
}

/// The routes around the settings.
#[verifier::opaque]
pub open spec fn settings_rules() -> Seq<RouteRule> {
    seq![
        rule(Method::Get, "/settings"@, Gate::SettingsStore, false),
        rule(Method::Post, "/settings/save"@, Gate::SettingsStore, false),
        rule(Method::Post, "/settings/raw"@, Gate::SettingsStore, false),
        rule(Method::Post, "/media/wallpaper/select"@, Gate::SettingsStore, false),
    ]
}

fn settings_routes() -> (r: Vec<Route>)
    ensures
        rules_of(r@) == settings_rules(),
{
    let r = vec![
        route(Method::Get, "/settings", Gate::SettingsStore, false),
        route(Method::Post, "/settings/save", Gate::SettingsStore, false),
        route(Method::Post, "/settings/raw", Gate::SettingsStore, false),
        route(Method::Post, "/media/wallpaper/select", Gate::SettingsStore, false),
    ];
    proof {
        reveal(settings_rules);
        assert(rules_of(r@) =~= settings_rules());
    }
    r
}

/// The routes around web apps.
#[verifier::opaque]
pub open spec fn web_app_rules() -> Seq<RouteRule> {
    seq![
        rule(Method::Post, "/media/webapp/add"@, Gate::WebApps, false),
        rule(Method::Post, "/media/webapp/remove"@, Gate::WebApps, false),
    ]
}

fn web_app_routes() -> (r: Vec<Route>)
    ensures
        rules_of(r@) == web_app_rules(),
{
    let r = vec![
        route(Method::Post, "/media/webapp/add", Gate::WebApps, false),
        route(Method::Post, "/media/webapp/remove", Gate::WebApps, false),
    ];
    proof {
        reveal(web_app_rules);
        assert(rules_of(r@) =~= web_app_rules());
    }
    r
}

/// The routes around screenshots.
#[verifier::opaque]
pub open spec fn screenshot_rules() -> Seq<RouteRule> {
    seq![
        rule(Method::Get, "/dev/screenshot"@, Gate::Screenshot, false),
        rule(Method::Post, "/dev/screenshot/capture"@, Gate::Screenshot, false),
    ]
}

fn screenshot_routes() -> (r: Vec<Route>)
    ensures
        rules_of(r@) == screenshot_rules(),
{
    let r = vec![
        route(Method::Get, "/dev/screenshot", Gate::Screenshot, false),
        route(Method::Post, "/dev/screenshot/capture", Gate::Screenshot, false),
    ];
    proof {
        reveal(screenshot_rules);
        assert(rules_of(r@) =~= screenshot_rules());
    }
    r
}

/// The routes that change what code runs.
#[verifier::opaque]
pub open spec fn deploy_rules() -> Seq<RouteRule> {
    seq![
        rule(Method::Post, "/dev/deploy"@, Gate::DevDeploy, true),
        rule(Method::Post, "/dev/build"@, Gate::DevDeploy, true),
    ]
}

fn deploy_routes() -> (r: Vec<Route>)
    ensures
        rules_of(r@) == deploy_rules(),
{
    let r = vec![
        route(Method::Post, "/dev/deploy", Gate::DevDeploy, true),
        route(Method::Post, "/dev/build", Gate::DevDeploy, true),
    ];
    proof {
        reveal(deploy_rules);
        assert(rules_of(r@) =~= deploy_rules());
    }
    r
}

/// The other routes that are as good as being root.
#[verifier::opaque]
pub open spec fn danger_rules() -> Seq<RouteRule> {
    seq![
        rule(Method::Post, "/dev/reboot"@, Gate::Recovery, true),
        rule(Method::Post, "/dev/suspend"@, Gate::Recovery, true),
        rule(Method::Post, "/processes/updates/apply"@, Gate::Recovery, true),
        rule(Method::Post, "/tools/raw"@, Gate::Recovery, true),
    ]
}

fn danger_routes() -> (r: Vec<Route>)
    ensures
        rules_of(r@) == danger_rules(),
{
    let r = vec![
        route(Method::Post, "/dev/reboot", Gate::Recovery, true),
        route(Method::Post, "/dev/suspend", Gate::Recovery, true),
        route(Method::Post, "/processes/updates/apply", Gate::Recovery, true),
        route(Method::Post, "/tools/raw", Gate::Recovery, true),
    ];
    proof {
        reveal(danger_rules);
        assert(rules_of(r@) =~= danger_rules());
    }
    r
}

/// All routes.
pub open spec fn all_rules() -> Seq<RouteRule> {
    recovery_rules() + node_rules() + controllers_rules() + cec_rules() + widgets_rules() + settings_rules() + web_app_rules() + screenshot_rules() + deploy_rules() + danger_rules()
}

/// All routes.
pub fn route_table() -> (r: Vec<Route>)
    ensures
        rules_of(r@) == all_rules(),
{
    let mut all = recovery_routes();
    append(&mut all, node_routes());
    append(&mut all, controllers_routes());
    append(&mut all, cec_routes());
    append(&mut all, widgets_routes());
    append(&mut all, settings_routes());
    append(&mut all, web_app_routes());
    append(&mut all, screenshot_routes());
    append(&mut all, deploy_routes());
    append(&mut all, danger_routes());
    all
}

fn append(all: &mut Vec<Route>, more: Vec<Route>)
    ensures
        rules_of(final(all)@) == rules_of(old(all)@) + rules_of(more@),
{
    let ghost before = all@;
    let mut rest = more;
    all.append(&mut rest);
    assert(rules_of(all@) =~= rules_of(before) + rules_of(more@));
}

/// Whether a route is there: its gate is open, and it is allowed where it is
/// dangerous.
pub open spec fn is_there(r: RouteRule, allow_dangerous: bool, caps: CapabilitySnapshot) -> bool {
    capabilities::open_gate(caps, r.gate) && (r.dangerous ==> allow_dangerous)
}

/// The routes that are there, in order.
pub open spec fn registered(
    rules: Seq<RouteRule>,
    allow_dangerous: bool,
    caps: CapabilitySnapshot,
) -> Seq<RouteRule> {
    rules.filter(|rule: RouteRule| is_there(rule, allow_dangerous, caps))
}

/// The routes of a table that are there, in order.
fn keep(table: &Vec<Route>, allow_dangerous: bool, caps: &CapabilitySnapshot) -> (r: Vec<Route>)
    ensures
        rules_of(r@) == registered(rules_of(table@), allow_dangerous, *caps),
{
    let ghost rules = rules_of(table@);
    let mut out: Vec<Route> = Vec::new();
    let mut i: usize = 0;
    assert(rules.take(0) =~= Seq::empty());
    assert(rules_of(out@) =~= Seq::empty());
    proof {
        reveal(Seq::<RouteRule>::filter);
    }
    while i < table.len()
        invariant
            i <= table.len(),
            rules == rules_of(table@),
            rules_of(out@) == registered(rules.take(i as int), allow_dangerous, *caps),
        decreases table.len() - i,
    {
        let r = table[i];
        let ghost next = rules.take(i + 1);
        proof {
            reveal(Seq::<RouteRule>::filter);
        }
        assert(next.drop_last() =~= rules.take(i as int));
        assert(next.last() == r@);
        if caps.allows(r.gate) && (!r.dangerous || allow_dangerous) {
            let ghost before = out@;
            out.push(r);
            assert(rules_of(out@) =~= rules_of(before).push(r@));
        }
        i += 1;
    }
    assert(rules.take(i as int) =~= rules);
    out
}

/// The routes of the panel, given what the operator allows and what the node can
/// do.
pub fn build_router(allow_dangerous: bool, caps: &CapabilitySnapshot) -> (r: Vec<Route>)
    ensures
        rules_of(r@) == registered(all_rules(), allow_dangerous, *caps),
{
    keep(&route_table(), allow_dangerous, caps)
}

/// The pages that each show and save a part of the settings, and the display
/// controls. The pages need the settings of the node; the controls are lines to the
/// node that no feature stands for, and need no permission, since a change that is
/// not confirmed undoes itself.
#[verifier::opaque]
pub open spec fn page_rules() -> Seq<RouteRule> {
    seq![
        rule(Method::Get, "/shell/appearance"@, Gate::SettingsStore, false),
        rule(Method::Post, "/shell/appearance/save"@, Gate::SettingsStore, false),
        rule(Method::Get, "/shell/apps"@, Gate::SettingsStore, false),
        rule(Method::Post, "/shell/apps/save"@, Gate::SettingsStore, false),
        rule(Method::Get, "/devices/display-audio"@, Gate::SettingsStore, false),
        rule(Method::Post, "/devices/display-audio/save"@, Gate::SettingsStore, false),
        rule(Method::Get, "/shell/advanced"@, Gate::SettingsStore, false),
        rule(Method::Post, "/shell/advanced/raw"@, Gate::SettingsStore, false),
        rule(Method::Get, "/devices/display-audio/mode"@, Gate::Node, false),
        rule(Method::Post, "/devices/display-audio/mode/apply"@, Gate::Node, false),
        rule(Method::Post, "/devices/display-audio/mode/vrr"@, Gate::Node, false),
        rule(Method::Post, "/devices/display-audio/mode/confirm"@, Gate::Node, false),
        rule(Method::Post, "/devices/display-audio/mode/revert"@, Gate::Node, false),
    ]
}

fn page_table() -> (r: Vec<Route>)
    ensures
        rules_of(r@) == page_rules(),
{
    let r: Vec<Route> = vec![
        route(Method::Get, "/shell/appearance", Gate::SettingsStore, false),
        route(Method::Post, "/shell/appearance/save", Gate::SettingsStore, false),
        route(Method::Get, "/shell/apps", Gate::SettingsStore, false),
        route(Method::Post, "/shell/apps/save", Gate::SettingsStore, false),
        route(Method::Get, "/devices/display-audio", Gate::SettingsStore, false),
        route(Method::Post, "/devices/display-audio/save", Gate::SettingsStore, false),
        route(Method::Get, "/shell/advanced", Gate::SettingsStore, false),
        route(Method::Post, "/shell/advanced/raw", Gate::SettingsStore, false),
        route(Method::Get, "/devices/display-audio/mode", Gate::Node, false),
        route(Method::Post, "/devices/display-audio/mode/apply", Gate::Node, false),
        route(Method::Post, "/devices/display-audio/mode/vrr", Gate::Node, false),
        route(Method::Post, "/devices/display-audio/mode/confirm", Gate::Node, false),
        route(Method::Post, "/devices/display-audio/mode/revert", Gate::Node, false),
    ];
    proof {
        reveal(page_rules);
        assert(rules_of(r@) =~= page_rules());
    }
    r
}

/// The routes of these pages that are there, given what the node can do.
pub fn page_routes(caps: &CapabilitySnapshot) -> (r: Vec<Route>)
    ensures
        rules_of(r@) == registered(page_rules(), false, *caps),
{
    keep(&page_table(), false, caps)
}

// ---------------------------------------------------------------------------
// Laws
// ---------------------------------------------------------------------------

/// The routes that are there are those of the table that may be there, and all of
/// them.
pub proof fn law_registered(
    rules: Seq<RouteRule>,
    allow_dangerous: bool,
    caps: CapabilitySnapshot,
    r: RouteRule,
)
    ensures
        registered(rules, allow_dangerous, caps).contains(r) <==> rules.contains(r) && is_there(
            r,
            allow_dangerous,
            caps,
        ),
{
    capabilities::lemma_kept(rules, |rule: RouteRule| is_there(rule, allow_dangerous, caps), r);
}

/// Whatever the node says, the routes of the recovery tier are there.
pub proof fn law_recovery_is_always_there(
    allow_dangerous: bool,
    caps: CapabilitySnapshot,
    r: RouteRule,
)
    requires
        recovery_rules().contains(r),
    ensures
        registered(all_rules(), allow_dangerous, caps).contains(r),
{
    let i = choose|i: int| 0 <= i < recovery_rules().len() && recovery_rules()[i] == r;
    assert(all_rules()[i] == r);
    assert(r.gate == Gate::Recovery && !r.dangerous) by {
        lemma_recovery_tier(i);
    }
    law_registered(all_rules(), allow_dangerous, caps, r);
}

proof fn lemma_recovery_tier(i: int)
    requires
        0 <= i < recovery_rules().len(),
    ensures
        recovery_rules()[i].gate == Gate::Recovery,
        !recovery_rules()[i].dangerous,
{
    reveal(recovery_rules);
}

/// A dangerous route is there only where the operator allows it.
pub proof fn law_danger_needs_permission(caps: CapabilitySnapshot, r: RouteRule)
    requires
        registered(all_rules(), false, caps).contains(r),
    ensures
        !r.dangerous,
{
    law_registered(all_rules(), false, caps, r);
}

/// While the node did not answer, nothing is there but what needs no node.
pub proof fn law_no_node_no_surface(allow_dangerous: bool, caps: CapabilitySnapshot, r: RouteRule)
    requires
        !caps.handshake_ok,
        registered(all_rules(), allow_dangerous, caps).contains(r),
    ensures
        r.gate == Gate::Recovery,
{
    law_registered(all_rules(), allow_dangerous, caps, r);
}

/// While the node did not answer, none of the pages that need it is there.
pub proof fn law_no_node_no_pages(caps: CapabilitySnapshot, r: RouteRule)
    requires
        !caps.handshake_ok,
    ensures
        !registered(page_rules(), false, caps).contains(r),
{
    law_registered(page_rules(), false, caps, r);
    if page_rules().contains(r) {
        let i = choose|i: int| 0 <= i < page_rules().len() && page_rules()[i] == r;
        reveal(page_rules);
        assert(page_rules()[i].gate != Gate::Recovery);
    }
}

/// Deploying and building need both the permission and the feature.
pub proof fn law_deploy_needs_both(allow_dangerous: bool, caps: CapabilitySnapshot, r: RouteRule)
    requires
        deploy_rules().contains(r),
    ensures
        registered(all_rules(), allow_dangerous, caps).contains(r) <==> allow_dangerous
            && capabilities::open_gate(caps, Gate::DevDeploy),
{
    reveal(deploy_rules);
    let i = choose|i: int| 0 <= i < deploy_rules().len() && deploy_rules()[i] == r;
    let before = recovery_rules() + node_rules() + controllers_rules() + cec_rules() + widgets_rules() + settings_rules() + web_app_rules() + screenshot_rules();
    assert((before + deploy_rules())[before.len() + i] == r);
    assert(all_rules()[before.len() + i] == r);
    law_registered(all_rules(), allow_dangerous, caps, r);
}

/// A link of the navigation that is shown leads to a page that is there.
pub proof fn law_links_lead_somewhere(
    allow_dangerous: bool,
    caps: CapabilitySnapshot,
    link: capabilities::NavRule,
)
    requires
        capabilities::open_links(capabilities::all_links(), caps).contains(link),
    ensures
        registered(all_rules(), allow_dangerous, caps).contains(
            rule(Method::Get, link.0, link.3, false),
        ),
{
    capabilities::law_links_follow_gates(capabilities::all_links(), caps, link);
    let i = choose|i: int|
        0 <= i < capabilities::all_links().len() && capabilities::all_links()[i] == link;
    lemma_link_in_table(i);
    law_registered(
        all_rules(),
        allow_dangerous,
        caps,
        rule(Method::Get, link.0, link.3, false),
    );
}

proof fn lemma_link_in_table(i: int)
    requires
        0 <= i < capabilities::all_links().len(),
    ensures
        all_rules().contains(
            rule(
                Method::Get,
                capabilities::all_links()[i].0,
                capabilities::all_links()[i].3,
                false,
            ),
        ),
{
    reveal(capabilities::all_links);
    let links = capabilities::all_links();
    let wanted = rule(Method::Get, links[i].0, links[i].3, false);
    reveal(recovery_rules);
    reveal(node_rules);
    reveal(controllers_rules);
    reveal(cec_rules);
    reveal(widgets_rules);
    reveal(settings_rules);
    reveal(web_app_rules);
    reveal(screenshot_rules);
    reveal(deploy_rules);
    reveal(danger_rules);
    if i == 0 {
        assert(all_rules()[0] == wanted);
    } else if i == 1 {
        assert(all_rules()[4] == wanted);
    } else if i == 2 {
        assert(all_rules()[76] == wanted);
    } else if i == 3 {
        assert(all_rules()[72] == wanted);
    } else if i == 4 {
        assert(all_rules()[8] == wanted);
    } else if i == 5 {
        assert(all_rules()[22] == wanted);
    } else if i == 6 {
        assert(all_rules()[48] == wanted);
    } else if i == 7 {
        assert(all_rules()[63] == wanted);
    } else if i == 8 {
        assert(all_rules()[14] == wanted);
    } else if i == 9 {
        assert(all_rules()[12] == wanted);
    }
}

/// Whether a path lies under another.
pub open spec fn lies_under(path: Seq<char>, top: Seq<char>) -> bool {
    text::occurs_at(path, top, 0)
}

proof fn lemma_letters(p: Seq<char>)
    ensures
        lies_under(p, "/cec"@) ==> p.len() >= 4 && p[1] == 'c' && p[2] == 'e',
        lies_under(p, "/controllers"@) ==> p.len() >= 12 && p[1] == 'c' && p[2] == 'o',
        lies_under(p, "/widgets"@) ==> p.len() >= 8 && p[1] == 'w',
        lies_under(p, "/settings"@) ==> p.len() >= 9 && p[1] == 's',
        lies_under(p, "/media/webapp"@) ==> p.len() >= 13 && p[1] == 'm' && p[8] == 'e',
        lies_under(p, "/dev/screenshot"@) ==> p.len() >= 15 && p[1] == 'd' && p[5] == 's' && p[6] == 'c',
        lies_under(p, "/tools"@) ==> p.len() >= 6 && p[1] == 't',
        p == "/dev/deploy"@ ==> p.len() == 11 && p[1] == 'd' && p[2] == 'e' && p[5] == 'd',
        p == "/dev/build"@ ==> p.len() == 10 && p[1] == 'd' && p[2] == 'e' && p[5] == 'b',
        p == "/dev/reboot"@ ==> p.len() == 11 && p[1] == 'd' && p[2] == 'e' && p[5] == 'r' && p[7] == 'b',
        p == "/dev/suspend"@ ==> p.len() == 12 && p[1] == 'd' && p[2] == 'e' && p[5] == 's' && p[6] == 'u',
        p == "/processes/updates/apply"@ ==> p.len() == 24 && p[1] == 'p' && p[11] == 'u',
        p == "/tools/raw"@ ==> p.len() == 10 && p[1] == 't' && p[7] == 'r',
{
    reveal_strlit("/cec");
    reveal_strlit("/controllers");
    reveal_strlit("/widgets");
    reveal_strlit("/settings");
    reveal_strlit("/media/webapp");
    reveal_strlit("/dev/screenshot");
    reveal_strlit("/tools");
    reveal_strlit("/dev/deploy");
    reveal_strlit("/dev/build");
    reveal_strlit("/dev/reboot");
    reveal_strlit("/dev/suspend");
    reveal_strlit("/processes/updates/apply");
    reveal_strlit("/tools/raw");
    if lies_under(p, "/cec"@) {
        assert(p.subrange(0, 4)[1] == p[1]);
        assert(p.subrange(0, 4)[2] == p[2]);
    }
    if lies_under(p, "/controllers"@) {
        assert(p.subrange(0, 12)[1] == p[1]);
        assert(p.subrange(0, 12)[2] == p[2]);
    }
    if lies_under(p, "/widgets"@) {
        assert(p.subrange(0, 8)[1] == p[1]);
    }
    if lies_under(p, "/settings"@) {
        assert(p.subrange(0, 9)[1] == p[1]);
    }
    if lies_under(p, "/media/webapp"@) {
        assert(p.subrange(0, 13)[1] == p[1]);
        assert(p.subrange(0, 13)[8] == p[8]);
    }
    if lies_under(p, "/dev/screenshot"@) {
        assert(p.subrange(0, 15)[1] == p[1]);
        assert(p.subrange(0, 15)[5] == p[5]);
        assert(p.subrange(0, 15)[6] == p[6]);
    }
    if lies_under(p, "/tools"@) {
        assert(p.subrange(0, 6)[1] == p[1]);
    }
}

spec fn fits(r: RouteRule) -> bool {
    &&& lies_under(r.path, "/cec"@) <==> r.gate == Gate::Cec
    &&& lies_under(r.path, "/controllers"@) ==> r.gate == Gate::Controllers
    &&& lies_under(r.path, "/widgets"@) <==> r.gate == Gate::Widgets
    &&& lies_under(r.path, "/settings"@) ==> r.gate == Gate::SettingsStore
    &&& lies_under(r.path, "/media/webapp"@) <==> r.gate == Gate::WebApps
    &&& lies_under(r.path, "/dev/screenshot"@) <==> r.gate == Gate::Screenshot
    &&& r.path == "/dev/deploy"@ || r.path == "/dev/build"@ <==> r.gate == Gate::DevDeploy
    &&& lies_under(r.path, "/tools"@) && !r.dangerous ==> r.gate != Gate::Recovery
    &&& r.dangerous <==> seq![
        "/dev/deploy"@,
        "/dev/build"@,
        "/dev/reboot"@,
        "/dev/suspend"@,
        "/processes/updates/apply"@,
        "/tools/raw"@,
    ].contains(r.path)
    &&& r.dangerous ==> r.method == Method::Post
}

#[verifier::spinoff_prover]
proof fn lemma_recovery_fit(i: int)
    requires
        0 <= i < recovery_rules().len(),
    ensures
        fits(recovery_rules()[i]),
{
    reveal(recovery_rules);
    let grave = seq![
        "/dev/deploy"@,
        "/dev/build"@,
        "/dev/reboot"@,
        "/dev/suspend"@,
        "/processes/updates/apply"@,
        "/tools/raw"@,
    ];
    assert(grave[0] == "/dev/deploy"@ && grave[1] == "/dev/build"@ && grave[2] == "/dev/reboot"@ && grave[3] == "/dev/suspend"@ && grave[4] == "/processes/updates/apply"@ && grave[5] == "/tools/raw"@);
    let p = recovery_rules()[i].path;
    lemma_letters(p);
    if i == 0 {
        reveal_strlit("/");
        assert(p.len() == 1);
    }
    if i == 1 {
        reveal_strlit("/dashboard");
        assert(p.len() == 10 && p[1] == 'd' && p[2] == 'a' && p[5] == 'b' && p[6] == 'o' && p[7] == 'a' && p[8] == 'r');
    }
    if i == 2 {
        reveal_strlit("/dashboard/tiles");
        assert(p.len() == 16 && p[1] == 'd' && p[2] == 'a' && p[5] == 'b' && p[6] == 'o' && p[7] == 'a' && p[8] == 'r' && p[11] == 't');
    }
    if i == 3 {
        reveal_strlit("/dashboard/updates-tile");
        assert(p.len() == 23 && p[1] == 'd' && p[2] == 'a' && p[5] == 'b' && p[6] == 'o' && p[7] == 'a' && p[8] == 'r' && p[11] == 'u');
    }
    if i == 4 {
        reveal_strlit("/processes");
        assert(p.len() == 10 && p[1] == 'p' && p[2] == 'r' && p[5] == 'e' && p[6] == 's' && p[7] == 's' && p[8] == 'e');
    }
    if i == 5 {
        reveal_strlit("/processes/restart/{key}");
        assert(p.len() == 24 && p[1] == 'p' && p[2] == 'r' && p[5] == 'e' && p[6] == 's' && p[7] == 's' && p[8] == 'e' && p[11] == 'r');
    }
    if i == 6 {
        reveal_strlit("/processes/updates/refresh");
        assert(p.len() == 26 && p[1] == 'p' && p[2] == 'r' && p[5] == 'e' && p[6] == 's' && p[7] == 's' && p[8] == 'e' && p[11] == 'u');
    }
    if i == 7 {
        reveal_strlit("/processes/updates/job");
        assert(p.len() == 22 && p[1] == 'p' && p[2] == 'r' && p[5] == 'e' && p[6] == 's' && p[7] == 's' && p[8] == 'e' && p[11] == 'u');
    }
    if i == 8 {
        reveal_strlit("/media");
        assert(p.len() == 6 && p[1] == 'm' && p[2] == 'e' && p[5] == 'a');
    }
    if i == 9 {
        reveal_strlit("/media/wallpaper/upload");
        assert(p.len() == 23 && p[1] == 'm' && p[2] == 'e' && p[5] == 'a' && p[6] == '/' && p[7] == 'w' && p[8] == 'a' && p[11] == 'p');
    }
    if i == 10 {
        reveal_strlit("/media/wallpaper/delete");
        assert(p.len() == 23 && p[1] == 'm' && p[2] == 'e' && p[5] == 'a' && p[6] == '/' && p[7] == 'w' && p[8] == 'a' && p[11] == 'p');
    }
    if i == 11 {
        reveal_strlit("/media/wallpaper/file");
        assert(p.len() == 21 && p[1] == 'm' && p[2] == 'e' && p[5] == 'a' && p[6] == '/' && p[7] == 'w' && p[8] == 'a' && p[11] == 'p');
    }
    if i == 12 {
        reveal_strlit("/logs");
        assert(p.len() == 5 && p[1] == 'l' && p[2] == 'o');
    }
    if i == 13 {
        reveal_strlit("/logs/view");
        assert(p.len() == 10 && p[1] == 'l' && p[2] == 'o' && p[5] == '/' && p[6] == 'v' && p[7] == 'i' && p[8] == 'e');
    }
    if i == 14 {
        reveal_strlit("/dev");
        assert(p.len() == 4 && p[1] == 'd' && p[2] == 'e');
    }
    if i == 15 {
        reveal_strlit("/dev/restart-daemon");
        assert(p.len() == 19 && p[1] == 'd' && p[2] == 'e' && p[5] == 'r' && p[6] == 'e' && p[7] == 's' && p[8] == 't' && p[11] == 't');
    }
    if i == 16 {
        reveal_strlit("/dev/restart-shell");
        assert(p.len() == 18 && p[1] == 'd' && p[2] == 'e' && p[5] == 'r' && p[6] == 'e' && p[7] == 's' && p[8] == 't' && p[11] == 't');
    }
    if i == 17 {
        reveal_strlit("/nav/daemon-status");
        assert(p.len() == 18 && p[1] == 'n' && p[2] == 'a' && p[5] == 'd' && p[6] == 'a' && p[7] == 'e' && p[8] == 'm' && p[11] == '-');
    }
    if i == 18 {
        reveal_strlit("/login");
        assert(p.len() == 6 && p[1] == 'l' && p[2] == 'o' && p[5] == 'n');
    }
    if i == 19 {
        reveal_strlit("/login");
        assert(p.len() == 6 && p[1] == 'l' && p[2] == 'o' && p[5] == 'n');
    }
    if i == 20 {
        reveal_strlit("/assets/htmx.min.js");
        assert(p.len() == 19 && p[1] == 'a' && p[2] == 's' && p[5] == 't' && p[6] == 's' && p[7] == '/' && p[8] == 'h' && p[11] == 'x');
    }
    if i == 21 {
        reveal_strlit("/assets/style.css");
        assert(p.len() == 17 && p[1] == 'a' && p[2] == 's' && p[5] == 't' && p[6] == 's' && p[7] == '/' && p[8] == 's' && p[11] == 'l');
    }
}

#[verifier::spinoff_prover]
proof fn lemma_node_fit(i: int)
    requires
        0 <= i < node_rules().len(),
    ensures
        fits(node_rules()[i]),
{
    reveal(node_rules);
    let grave = seq![
        "/dev/deploy"@,
        "/dev/build"@,
        "/dev/reboot"@,
        "/dev/suspend"@,
        "/processes/updates/apply"@,
        "/tools/raw"@,
    ];
    assert(grave[0] == "/dev/deploy"@ && grave[1] == "/dev/build"@ && grave[2] == "/dev/reboot"@ && grave[3] == "/dev/suspend"@ && grave[4] == "/processes/updates/apply"@ && grave[5] == "/tools/raw"@);
    let p = node_rules()[i].path;
    lemma_letters(p);
    if i == 0 {
        reveal_strlit("/tools");
        assert(p.len() == 6 && p[1] == 't' && p[2] == 'o' && p[5] == 's');
        reveal_strlit("/tools");
        assert(p.subrange(0, 6) =~= "/tools"@);
    }
    if i == 1 {
        reveal_strlit("/tools/intent");
        assert(p.len() == 13 && p[1] == 't' && p[2] == 'o' && p[5] == 's' && p[6] == '/' && p[7] == 'i' && p[8] == 'n' && p[11] == 'n');
        reveal_strlit("/tools");
        assert(p.subrange(0, 6) =~= "/tools"@);
    }
    if i == 2 {
        reveal_strlit("/tools/key");
        assert(p.len() == 10 && p[1] == 't' && p[2] == 'o' && p[5] == 's' && p[6] == '/' && p[7] == 'k' && p[8] == 'e');
        reveal_strlit("/tools");
        assert(p.subrange(0, 6) =~= "/tools"@);
    }
    if i == 3 {
        reveal_strlit("/tools/apps/list");
        assert(p.len() == 16 && p[1] == 't' && p[2] == 'o' && p[5] == 's' && p[6] == '/' && p[7] == 'a' && p[8] == 'p' && p[11] == '/');
        reveal_strlit("/tools");
        assert(p.subrange(0, 6) =~= "/tools"@);
    }
    if i == 4 {
        reveal_strlit("/tools/apps/launch");
        assert(p.len() == 18 && p[1] == 't' && p[2] == 'o' && p[5] == 's' && p[6] == '/' && p[7] == 'a' && p[8] == 'p' && p[11] == '/');
        reveal_strlit("/tools");
        assert(p.subrange(0, 6) =~= "/tools"@);
    }
    if i == 5 {
        reveal_strlit("/tools/apps/recents");
        assert(p.len() == 19 && p[1] == 't' && p[2] == 'o' && p[5] == 's' && p[6] == '/' && p[7] == 'a' && p[8] == 'p' && p[11] == '/');
        reveal_strlit("/tools");
        assert(p.subrange(0, 6) =~= "/tools"@);
    }
    if i == 6 {
        reveal_strlit("/tools/bt/power-status");
        assert(p.len() == 22 && p[1] == 't' && p[2] == 'o' && p[5] == 's' && p[6] == '/' && p[7] == 'b' && p[8] == 't' && p[11] == 'o');
        reveal_strlit("/tools");
        assert(p.subrange(0, 6) =~= "/tools"@);
    }
    if i == 7 {
        reveal_strlit("/tools/bt/power-on");
        assert(p.len() == 18 && p[1] == 't' && p[2] == 'o' && p[5] == 's' && p[6] == '/' && p[7] == 'b' && p[8] == 't' && p[11] == 'o');
        reveal_strlit("/tools");
        assert(p.subrange(0, 6) =~= "/tools"@);
    }
    if i == 8 {
        reveal_strlit("/tools/bt/power-off");
        assert(p.len() == 19 && p[1] == 't' && p[2] == 'o' && p[5] == 's' && p[6] == '/' && p[7] == 'b' && p[8] == 't' && p[11] == 'o');
        reveal_strlit("/tools");
        assert(p.subrange(0, 6) =~= "/tools"@);
    }
    if i == 9 {
        reveal_strlit("/tools/bt/scan-on");
        assert(p.len() == 17 && p[1] == 't' && p[2] == 'o' && p[5] == 's' && p[6] == '/' && p[7] == 'b' && p[8] == 't' && p[11] == 'c');
        reveal_strlit("/tools");
        assert(p.subrange(0, 6) =~= "/tools"@);
    }
    if i == 10 {
        reveal_strlit("/tools/bt/scan-off");
        assert(p.len() == 18 && p[1] == 't' && p[2] == 'o' && p[5] == 's' && p[6] == '/' && p[7] == 'b' && p[8] == 't' && p[11] == 'c');
        reveal_strlit("/tools");
        assert(p.subrange(0, 6) =~= "/tools"@);
    }
    if i == 11 {
        reveal_strlit("/tools/bt/list");
        assert(p.len() == 14 && p[1] == 't' && p[2] == 'o' && p[5] == 's' && p[6] == '/' && p[7] == 'b' && p[8] == 't' && p[11] == 'i');
        reveal_strlit("/tools");
        assert(p.subrange(0, 6) =~= "/tools"@);
    }
    if i == 12 {
        reveal_strlit("/tools/bt/action");
        assert(p.len() == 16 && p[1] == 't' && p[2] == 'o' && p[5] == 's' && p[6] == '/' && p[7] == 'b' && p[8] == 't' && p[11] == 'c');
        reveal_strlit("/tools");
        assert(p.subrange(0, 6) =~= "/tools"@);
    }
    if i == 13 {
        reveal_strlit("/tools/net/status");
        assert(p.len() == 17 && p[1] == 't' && p[2] == 'o' && p[5] == 's' && p[6] == '/' && p[7] == 'n' && p[8] == 'e' && p[11] == 's');
        reveal_strlit("/tools");
        assert(p.subrange(0, 6) =~= "/tools"@);
    }
    if i == 14 {
        reveal_strlit("/tools/net/wifi-list");
        assert(p.len() == 20 && p[1] == 't' && p[2] == 'o' && p[5] == 's' && p[6] == '/' && p[7] == 'n' && p[8] == 'e' && p[11] == 'w');
        reveal_strlit("/tools");
        assert(p.subrange(0, 6) =~= "/tools"@);
    }
    if i == 15 {
        reveal_strlit("/tools/net/wifi-rescan");
        assert(p.len() == 22 && p[1] == 't' && p[2] == 'o' && p[5] == 's' && p[6] == '/' && p[7] == 'n' && p[8] == 'e' && p[11] == 'w');
        reveal_strlit("/tools");
        assert(p.subrange(0, 6) =~= "/tools"@);
    }
    if i == 16 {
        reveal_strlit("/tools/net/throughput");
        assert(p.len() == 21 && p[1] == 't' && p[2] == 'o' && p[5] == 's' && p[6] == '/' && p[7] == 'n' && p[8] == 'e' && p[11] == 't');
        reveal_strlit("/tools");
        assert(p.subrange(0, 6) =~= "/tools"@);
    }
    if i == 17 {
        reveal_strlit("/tools/net/ping");
        assert(p.len() == 15 && p[1] == 't' && p[2] == 'o' && p[5] == 's' && p[6] == '/' && p[7] == 'n' && p[8] == 'e' && p[11] == 'p');
        reveal_strlit("/tools");
        assert(p.subrange(0, 6) =~= "/tools"@);
    }
    if i == 18 {
        reveal_strlit("/tools/power/can-suspend");
        assert(p.len() == 24 && p[1] == 't' && p[2] == 'o' && p[5] == 's' && p[6] == '/' && p[7] == 'p' && p[8] == 'o' && p[11] == 'r');
        reveal_strlit("/tools");
        assert(p.subrange(0, 6) =~= "/tools"@);
    }
    if i == 19 {
        reveal_strlit("/tools/power/battery");
        assert(p.len() == 20 && p[1] == 't' && p[2] == 'o' && p[5] == 's' && p[6] == '/' && p[7] == 'p' && p[8] == 'o' && p[11] == 'r');
        reveal_strlit("/tools");
        assert(p.subrange(0, 6) =~= "/tools"@);
    }
    if i == 20 {
        reveal_strlit("/tools/sys/status");
        assert(p.len() == 17 && p[1] == 't' && p[2] == 'o' && p[5] == 's' && p[6] == '/' && p[7] == 's' && p[8] == 'y' && p[11] == 's');
        reveal_strlit("/tools");
        assert(p.subrange(0, 6) =~= "/tools"@);
    }
    if i == 21 {
        reveal_strlit("/tools/sys/metrics");
        assert(p.len() == 18 && p[1] == 't' && p[2] == 'o' && p[5] == 's' && p[6] == '/' && p[7] == 's' && p[8] == 'y' && p[11] == 'm');
        reveal_strlit("/tools");
        assert(p.subrange(0, 6) =~= "/tools"@);
    }
    if i == 22 {
        reveal_strlit("/tools/sys/storage");
        assert(p.len() == 18 && p[1] == 't' && p[2] == 'o' && p[5] == 's' && p[6] == '/' && p[7] == 's' && p[8] == 'y' && p[11] == 's');
        reveal_strlit("/tools");
        assert(p.subrange(0, 6) =~= "/tools"@);
    }
    if i == 23 {
        reveal_strlit("/tools/sys/build-info");
        assert(p.len() == 21 && p[1] == 't' && p[2] == 'o' && p[5] == 's' && p[6] == '/' && p[7] == 's' && p[8] == 'y' && p[11] == 'b');
        reveal_strlit("/tools");
        assert(p.subrange(0, 6) =~= "/tools"@);
    }
}

#[verifier::spinoff_prover]
proof fn lemma_controllers_fit(i: int)
    requires
        0 <= i < controllers_rules().len(),
    ensures
        fits(controllers_rules()[i]),
{
    reveal(controllers_rules);
    let grave = seq![
        "/dev/deploy"@,
        "/dev/build"@,
        "/dev/reboot"@,
        "/dev/suspend"@,
        "/processes/updates/apply"@,
        "/tools/raw"@,
    ];
    assert(grave[0] == "/dev/deploy"@ && grave[1] == "/dev/build"@ && grave[2] == "/dev/reboot"@ && grave[3] == "/dev/suspend"@ && grave[4] == "/processes/updates/apply"@ && grave[5] == "/tools/raw"@);
    let p = controllers_rules()[i].path;
    lemma_letters(p);
    if i == 0 {
        reveal_strlit("/tools/sys/controllerdb-status");
        assert(p.len() == 30 && p[1] == 't' && p[2] == 'o' && p[5] == 's' && p[6] == '/' && p[7] == 's' && p[8] == 'y' && p[11] == 'c');
        reveal_strlit("/tools");
        assert(p.subrange(0, 6) =~= "/tools"@);
    }
    if i == 1 {
        reveal_strlit("/tools/sys/controllerdb-refresh");
        assert(p.len() == 31 && p[1] == 't' && p[2] == 'o' && p[5] == 's' && p[6] == '/' && p[7] == 's' && p[8] == 'y' && p[11] == 'c');
        reveal_strlit("/tools");
        assert(p.subrange(0, 6) =~= "/tools"@);
    }
    if i == 2 {
        reveal_strlit("/controllers");
        assert(p.len() == 12 && p[1] == 'c' && p[2] == 'o' && p[5] == 'r' && p[6] == 'o' && p[7] == 'l' && p[8] == 'l' && p[11] == 's');
        reveal_strlit("/controllers");
        assert(p.subrange(0, 12) =~= "/controllers"@);
    }
    if i == 3 {
        reveal_strlit("/controllers/grab");
        assert(p.len() == 17 && p[1] == 'c' && p[2] == 'o' && p[5] == 'r' && p[6] == 'o' && p[7] == 'l' && p[8] == 'l' && p[11] == 's');
        reveal_strlit("/controllers");
        assert(p.subrange(0, 12) =~= "/controllers"@);
    }
    if i == 4 {
        reveal_strlit("/controllers/release");
        assert(p.len() == 20 && p[1] == 'c' && p[2] == 'o' && p[5] == 'r' && p[6] == 'o' && p[7] == 'l' && p[8] == 'l' && p[11] == 's');
        reveal_strlit("/controllers");
        assert(p.subrange(0, 12) =~= "/controllers"@);
    }
    if i == 5 {
        reveal_strlit("/controllers/handoff");
        assert(p.len() == 20 && p[1] == 'c' && p[2] == 'o' && p[5] == 'r' && p[6] == 'o' && p[7] == 'l' && p[8] == 'l' && p[11] == 's');
        reveal_strlit("/controllers");
        assert(p.subrange(0, 12) =~= "/controllers"@);
    }
    if i == 6 {
        reveal_strlit("/controllers/pad/battery");
        assert(p.len() == 24 && p[1] == 'c' && p[2] == 'o' && p[5] == 'r' && p[6] == 'o' && p[7] == 'l' && p[8] == 'l' && p[11] == 's');
        reveal_strlit("/controllers");
        assert(p.subrange(0, 12) =~= "/controllers"@);
    }
    if i == 7 {
        reveal_strlit("/controllers/pad/rumble-status");
        assert(p.len() == 30 && p[1] == 'c' && p[2] == 'o' && p[5] == 'r' && p[6] == 'o' && p[7] == 'l' && p[8] == 'l' && p[11] == 's');
        reveal_strlit("/controllers");
        assert(p.subrange(0, 12) =~= "/controllers"@);
    }
    if i == 8 {
        reveal_strlit("/controllers/pad/rumble");
        assert(p.len() == 23 && p[1] == 'c' && p[2] == 'o' && p[5] == 'r' && p[6] == 'o' && p[7] == 'l' && p[8] == 'l' && p[11] == 's');
        reveal_strlit("/controllers");
        assert(p.subrange(0, 12) =~= "/controllers"@);
    }
    if i == 9 {
        reveal_strlit("/controllers/input-devices");
        assert(p.len() == 26 && p[1] == 'c' && p[2] == 'o' && p[5] == 'r' && p[6] == 'o' && p[7] == 'l' && p[8] == 'l' && p[11] == 's');
        reveal_strlit("/controllers");
        assert(p.subrange(0, 12) =~= "/controllers"@);
    }
    if i == 10 {
        reveal_strlit("/controllers/bindings/set");
        assert(p.len() == 25 && p[1] == 'c' && p[2] == 'o' && p[5] == 'r' && p[6] == 'o' && p[7] == 'l' && p[8] == 'l' && p[11] == 's');
        reveal_strlit("/controllers");
        assert(p.subrange(0, 12) =~= "/controllers"@);
    }
    if i == 11 {
        reveal_strlit("/controllers/bindings/capture");
        assert(p.len() == 29 && p[1] == 'c' && p[2] == 'o' && p[5] == 'r' && p[6] == 'o' && p[7] == 'l' && p[8] == 'l' && p[11] == 's');
        reveal_strlit("/controllers");
        assert(p.subrange(0, 12) =~= "/controllers"@);
    }
    if i == 12 {
        reveal_strlit("/controllers/bindings/capture-cancel");
        assert(p.len() == 36 && p[1] == 'c' && p[2] == 'o' && p[5] == 'r' && p[6] == 'o' && p[7] == 'l' && p[8] == 'l' && p[11] == 's');
        reveal_strlit("/controllers");
        assert(p.subrange(0, 12) =~= "/controllers"@);
    }
    if i == 13 {
        reveal_strlit("/controllers/active-game/set");
        assert(p.len() == 28 && p[1] == 'c' && p[2] == 'o' && p[5] == 'r' && p[6] == 'o' && p[7] == 'l' && p[8] == 'l' && p[11] == 's');
        reveal_strlit("/controllers");
        assert(p.subrange(0, 12) =~= "/controllers"@);
    }
    if i == 14 {
        reveal_strlit("/controllers/active-game/clear");
        assert(p.len() == 30 && p[1] == 'c' && p[2] == 'o' && p[5] == 'r' && p[6] == 'o' && p[7] == 'l' && p[8] == 'l' && p[11] == 's');
        reveal_strlit("/controllers");
        assert(p.subrange(0, 12) =~= "/controllers"@);
    }
    if i == 15 {
        reveal_strlit("/controllers/controllerdb/status");
        assert(p.len() == 32 && p[1] == 'c' && p[2] == 'o' && p[5] == 'r' && p[6] == 'o' && p[7] == 'l' && p[8] == 'l' && p[11] == 's');
        reveal_strlit("/controllers");
        assert(p.subrange(0, 12) =~= "/controllers"@);
    }
    if i == 16 {
        reveal_strlit("/controllers/controllerdb/refresh");
        assert(p.len() == 33 && p[1] == 'c' && p[2] == 'o' && p[5] == 'r' && p[6] == 'o' && p[7] == 'l' && p[8] == 'l' && p[11] == 's');
        reveal_strlit("/controllers");
        assert(p.subrange(0, 12) =~= "/controllers"@);
    }
}

#[verifier::spinoff_prover]
proof fn lemma_cec_fit(i: int)
    requires
        0 <= i < cec_rules().len(),
    ensures
        fits(cec_rules()[i]),
{
    reveal(cec_rules);
    let grave = seq![
        "/dev/deploy"@,
        "/dev/build"@,
        "/dev/reboot"@,
        "/dev/suspend"@,
        "/processes/updates/apply"@,
        "/tools/raw"@,
    ];
    assert(grave[0] == "/dev/deploy"@ && grave[1] == "/dev/build"@ && grave[2] == "/dev/reboot"@ && grave[3] == "/dev/suspend"@ && grave[4] == "/processes/updates/apply"@ && grave[5] == "/tools/raw"@);
    let p = cec_rules()[i].path;
    lemma_letters(p);
    if i == 0 {
        reveal_strlit("/cec");
        assert(p.len() == 4 && p[1] == 'c' && p[2] == 'e');
        reveal_strlit("/cec");
        assert(p.subrange(0, 4) =~= "/cec"@);
    }
    if i == 1 {
        reveal_strlit("/cec/scan");
        assert(p.len() == 9 && p[1] == 'c' && p[2] == 'e' && p[5] == 's' && p[6] == 'c' && p[7] == 'a' && p[8] == 'n');
        reveal_strlit("/cec");
        assert(p.subrange(0, 4) =~= "/cec"@);
    }
    if i == 2 {
        reveal_strlit("/cec/device");
        assert(p.len() == 11 && p[1] == 'c' && p[2] == 'e' && p[5] == 'd' && p[6] == 'e' && p[7] == 'v' && p[8] == 'i');
        reveal_strlit("/cec");
        assert(p.subrange(0, 4) =~= "/cec"@);
    }
    if i == 3 {
        reveal_strlit("/cec/active-source");
        assert(p.len() == 18 && p[1] == 'c' && p[2] == 'e' && p[5] == 'a' && p[6] == 'c' && p[7] == 't' && p[8] == 'i' && p[11] == '-');
        reveal_strlit("/cec");
        assert(p.subrange(0, 4) =~= "/cec"@);
    }
    if i == 4 {
        reveal_strlit("/cec/power-on");
        assert(p.len() == 13 && p[1] == 'c' && p[2] == 'e' && p[5] == 'p' && p[6] == 'o' && p[7] == 'w' && p[8] == 'e' && p[11] == 'o');
        reveal_strlit("/cec");
        assert(p.subrange(0, 4) =~= "/cec"@);
    }
    if i == 5 {
        reveal_strlit("/cec/power-off");
        assert(p.len() == 14 && p[1] == 'c' && p[2] == 'e' && p[5] == 'p' && p[6] == 'o' && p[7] == 'w' && p[8] == 'e' && p[11] == 'o');
        reveal_strlit("/cec");
        assert(p.subrange(0, 4) =~= "/cec"@);
    }
    if i == 6 {
        reveal_strlit("/cec/test");
        assert(p.len() == 9 && p[1] == 'c' && p[2] == 'e' && p[5] == 't' && p[6] == 'e' && p[7] == 's' && p[8] == 't');
        reveal_strlit("/cec");
        assert(p.subrange(0, 4) =~= "/cec"@);
    }
    if i == 7 {
        reveal_strlit("/cec/osd-name");
        assert(p.len() == 13 && p[1] == 'c' && p[2] == 'e' && p[5] == 'o' && p[6] == 's' && p[7] == 'd' && p[8] == '-' && p[11] == 'm');
        reveal_strlit("/cec");
        assert(p.subrange(0, 4) =~= "/cec"@);
    }
    if i == 8 {
        reveal_strlit("/cec/recover/restart-daemon");
        assert(p.len() == 27 && p[1] == 'c' && p[2] == 'e' && p[5] == 'r' && p[6] == 'e' && p[7] == 'c' && p[8] == 'o' && p[11] == 'r');
        reveal_strlit("/cec");
        assert(p.subrange(0, 4) =~= "/cec"@);
    }
}

#[verifier::spinoff_prover]
proof fn lemma_widgets_fit(i: int)
    requires
        0 <= i < widgets_rules().len(),
    ensures
        fits(widgets_rules()[i]),
{
    reveal(widgets_rules);
    let grave = seq![
        "/dev/deploy"@,
        "/dev/build"@,
        "/dev/reboot"@,
        "/dev/suspend"@,
        "/processes/updates/apply"@,
        "/tools/raw"@,
    ];
    assert(grave[0] == "/dev/deploy"@ && grave[1] == "/dev/build"@ && grave[2] == "/dev/reboot"@ && grave[3] == "/dev/suspend"@ && grave[4] == "/processes/updates/apply"@ && grave[5] == "/tools/raw"@);
    let p = widgets_rules()[i].path;
    lemma_letters(p);
    if i == 0 {
        reveal_strlit("/widgets");
        assert(p.len() == 8 && p[1] == 'w' && p[2] == 'i' && p[5] == 'e' && p[6] == 't' && p[7] == 's');
        reveal_strlit("/widgets");
        assert(p.subrange(0, 8) =~= "/widgets"@);
    }
    if i == 1 {
        reveal_strlit("/widgets/save");
        assert(p.len() == 13 && p[1] == 'w' && p[2] == 'i' && p[5] == 'e' && p[6] == 't' && p[7] == 's' && p[8] == '/' && p[11] == 'v');
        reveal_strlit("/widgets");
        assert(p.subrange(0, 8) =~= "/widgets"@);
    }
    if i == 2 {
        reveal_strlit("/widgets/reorder/{id}/up");
        assert(p.len() == 24 && p[1] == 'w' && p[2] == 'i' && p[5] == 'e' && p[6] == 't' && p[7] == 's' && p[8] == '/' && p[11] == 'o');
        reveal_strlit("/widgets");
        assert(p.subrange(0, 8) =~= "/widgets"@);
    }
    if i == 3 {
        reveal_strlit("/widgets/reorder/{id}/down");
        assert(p.len() == 26 && p[1] == 'w' && p[2] == 'i' && p[5] == 'e' && p[6] == 't' && p[7] == 's' && p[8] == '/' && p[11] == 'o');
        reveal_strlit("/widgets");
        assert(p.subrange(0, 8) =~= "/widgets"@);
    }
}

#[verifier::spinoff_prover]
proof fn lemma_settings_fit(i: int)
    requires
        0 <= i < settings_rules().len(),
    ensures
        fits(settings_rules()[i]),
{
    reveal(settings_rules);
    let grave = seq![
        "/dev/deploy"@,
        "/dev/build"@,
        "/dev/reboot"@,
        "/dev/suspend"@,
        "/processes/updates/apply"@,
        "/tools/raw"@,
    ];
    assert(grave[0] == "/dev/deploy"@ && grave[1] == "/dev/build"@ && grave[2] == "/dev/reboot"@ && grave[3] == "/dev/suspend"@ && grave[4] == "/processes/updates/apply"@ && grave[5] == "/tools/raw"@);
    let p = settings_rules()[i].path;
    lemma_letters(p);
    if i == 0 {
        reveal_strlit("/settings");
        assert(p.len() == 9 && p[1] == 's' && p[2] == 'e' && p[5] == 'i' && p[6] == 'n' && p[7] == 'g' && p[8] == 's');
        reveal_strlit("/settings");
        assert(p.subrange(0, 9) =~= "/settings"@);
    }
    if i == 1 {
        reveal_strlit("/settings/save");
        assert(p.len() == 14 && p[1] == 's' && p[2] == 'e' && p[5] == 'i' && p[6] == 'n' && p[7] == 'g' && p[8] == 's' && p[11] == 'a');
        reveal_strlit("/settings");
        assert(p.subrange(0, 9) =~= "/settings"@);
    }
    if i == 2 {
        reveal_strlit("/settings/raw");
        assert(p.len() == 13 && p[1] == 's' && p[2] == 'e' && p[5] == 'i' && p[6] == 'n' && p[7] == 'g' && p[8] == 's' && p[11] == 'a');
        reveal_strlit("/settings");
        assert(p.subrange(0, 9) =~= "/settings"@);
    }
    if i == 3 {
        reveal_strlit("/media/wallpaper/select");
        assert(p.len() == 23 && p[1] == 'm' && p[2] == 'e' && p[5] == 'a' && p[6] == '/' && p[7] == 'w' && p[8] == 'a' && p[11] == 'p');
    }
}

#[verifier::spinoff_prover]
proof fn lemma_web_app_fit(i: int)
    requires
        0 <= i < web_app_rules().len(),
    ensures
        fits(web_app_rules()[i]),
{
    reveal(web_app_rules);
    let grave = seq![
        "/dev/deploy"@,
        "/dev/build"@,
        "/dev/reboot"@,
        "/dev/suspend"@,
        "/processes/updates/apply"@,
        "/tools/raw"@,
    ];
    assert(grave[0] == "/dev/deploy"@ && grave[1] == "/dev/build"@ && grave[2] == "/dev/reboot"@ && grave[3] == "/dev/suspend"@ && grave[4] == "/processes/updates/apply"@ && grave[5] == "/tools/raw"@);
    let p = web_app_rules()[i].path;
    lemma_letters(p);
    if i == 0 {
        reveal_strlit("/media/webapp/add");
        assert(p.len() == 17 && p[1] == 'm' && p[2] == 'e' && p[5] == 'a' && p[6] == '/' && p[7] == 'w' && p[8] == 'e' && p[11] == 'p');
        reveal_strlit("/media/webapp");
        assert(p.subrange(0, 13) =~= "/media/webapp"@);
    }
    if i == 1 {
        reveal_strlit("/media/webapp/remove");
        assert(p.len() == 20 && p[1] == 'm' && p[2] == 'e' && p[5] == 'a' && p[6] == '/' && p[7] == 'w' && p[8] == 'e' && p[11] == 'p');
        reveal_strlit("/media/webapp");
        assert(p.subrange(0, 13) =~= "/media/webapp"@);
    }
}

#[verifier::spinoff_prover]
proof fn lemma_screenshot_fit(i: int)
    requires
        0 <= i < screenshot_rules().len(),
    ensures
        fits(screenshot_rules()[i]),
{
    reveal(screenshot_rules);
    let grave = seq![
        "/dev/deploy"@,
        "/dev/build"@,
        "/dev/reboot"@,
        "/dev/suspend"@,
        "/processes/updates/apply"@,
        "/tools/raw"@,
    ];
    assert(grave[0] == "/dev/deploy"@ && grave[1] == "/dev/build"@ && grave[2] == "/dev/reboot"@ && grave[3] == "/dev/suspend"@ && grave[4] == "/processes/updates/apply"@ && grave[5] == "/tools/raw"@);
    let p = screenshot_rules()[i].path;
    lemma_letters(p);
    if i == 0 {
        reveal_strlit("/dev/screenshot");
        assert(p.len() == 15 && p[1] == 'd' && p[2] == 'e' && p[5] == 's' && p[6] == 'c' && p[7] == 'r' && p[8] == 'e' && p[11] == 's');
        reveal_strlit("/dev/screenshot");
        assert(p.subrange(0, 15) =~= "/dev/screenshot"@);
    }
    if i == 1 {
        reveal_strlit("/dev/screenshot/capture");
        assert(p.len() == 23 && p[1] == 'd' && p[2] == 'e' && p[5] == 's' && p[6] == 'c' && p[7] == 'r' && p[8] == 'e' && p[11] == 's');
        reveal_strlit("/dev/screenshot");
        assert(p.subrange(0, 15) =~= "/dev/screenshot"@);
    }
}

#[verifier::spinoff_prover]
proof fn lemma_deploy_fit(i: int)
    requires
        0 <= i < deploy_rules().len(),
    ensures
        fits(deploy_rules()[i]),
{
    reveal(deploy_rules);
    let grave = seq![
        "/dev/deploy"@,
        "/dev/build"@,
        "/dev/reboot"@,
        "/dev/suspend"@,
        "/processes/updates/apply"@,
        "/tools/raw"@,
    ];
    assert(grave[0] == "/dev/deploy"@ && grave[1] == "/dev/build"@ && grave[2] == "/dev/reboot"@ && grave[3] == "/dev/suspend"@ && grave[4] == "/processes/updates/apply"@ && grave[5] == "/tools/raw"@);
    let p = deploy_rules()[i].path;
    lemma_letters(p);
    if i == 0 {
        reveal_strlit("/dev/deploy");
        assert(p.len() == 11 && p[1] == 'd' && p[2] == 'e' && p[5] == 'd' && p[6] == 'e' && p[7] == 'p' && p[8] == 'l');
    }
    if i == 1 {
        reveal_strlit("/dev/build");
        assert(p.len() == 10 && p[1] == 'd' && p[2] == 'e' && p[5] == 'b' && p[6] == 'u' && p[7] == 'i' && p[8] == 'l');
    }
}

#[verifier::spinoff_prover]
proof fn lemma_danger_fit(i: int)
    requires
        0 <= i < danger_rules().len(),
    ensures
        fits(danger_rules()[i]),
{
    reveal(danger_rules);
    let grave = seq![
        "/dev/deploy"@,
        "/dev/build"@,
        "/dev/reboot"@,
        "/dev/suspend"@,
        "/processes/updates/apply"@,
        "/tools/raw"@,
    ];
    assert(grave[0] == "/dev/deploy"@ && grave[1] == "/dev/build"@ && grave[2] == "/dev/reboot"@ && grave[3] == "/dev/suspend"@ && grave[4] == "/processes/updates/apply"@ && grave[5] == "/tools/raw"@);
    let p = danger_rules()[i].path;
    lemma_letters(p);
    if i == 0 {
        reveal_strlit("/dev/reboot");
        assert(p.len() == 11 && p[1] == 'd' && p[2] == 'e' && p[5] == 'r' && p[6] == 'e' && p[7] == 'b' && p[8] == 'o');
    }
    if i == 1 {
        reveal_strlit("/dev/suspend");
        assert(p.len() == 12 && p[1] == 'd' && p[2] == 'e' && p[5] == 's' && p[6] == 'u' && p[7] == 's' && p[8] == 'p' && p[11] == 'd');
    }
    if i == 2 {
        reveal_strlit("/processes/updates/apply");
        assert(p.len() == 24 && p[1] == 'p' && p[2] == 'r' && p[5] == 'e' && p[6] == 's' && p[7] == 's' && p[8] == 'e' && p[11] == 'u');
    }
    if i == 3 {
        reveal_strlit("/tools/raw");
        assert(p.len() == 10 && p[1] == 't' && p[2] == 'o' && p[5] == 's' && p[6] == '/' && p[7] == 'r' && p[8] == 'a');
        reveal_strlit("/tools");
        assert(p.subrange(0, 6) =~= "/tools"@);
    }
}

/// The path of a route says what it needs: a feature has its paths, and what is dangerous is
/// one of six, each of which is posted to.
pub proof fn law_paths_say_what_they_need(r: RouteRule)
    requires
        all_rules().contains(r),
    ensures
        lies_under(r.path, "/cec"@) <==> r.gate == Gate::Cec,
        lies_under(r.path, "/controllers"@) ==> r.gate == Gate::Controllers,
        lies_under(r.path, "/widgets"@) <==> r.gate == Gate::Widgets,
        lies_under(r.path, "/settings"@) ==> r.gate == Gate::SettingsStore,
        lies_under(r.path, "/media/webapp"@) <==> r.gate == Gate::WebApps,
        lies_under(r.path, "/dev/screenshot"@) <==> r.gate == Gate::Screenshot,
        r.path == "/dev/deploy"@ || r.path == "/dev/build"@ <==> r.gate == Gate::DevDeploy,
        lies_under(r.path, "/tools"@) && !r.dangerous ==> r.gate != Gate::Recovery,
        r.dangerous <==> seq![
            "/dev/deploy"@,
            "/dev/build"@,
            "/dev/reboot"@,
            "/dev/suspend"@,
            "/processes/updates/apply"@,
            "/tools/raw"@,
        ].contains(r.path),
        r.dangerous ==> r.method == Method::Post,
{
    let i = choose|i: int| 0 <= i < all_rules().len() && all_rules()[i] == r;
    let n0: int = 0;
    let n1: int = (recovery_rules().len()) as int;
    let n2: int = (recovery_rules().len() + node_rules().len()) as int;
    let n3: int = (recovery_rules().len() + node_rules().len() + controllers_rules().len()) as int;
    let n4: int = (recovery_rules().len() + node_rules().len() + controllers_rules().len() + cec_rules().len()) as int;
    let n5: int = (recovery_rules().len() + node_rules().len() + controllers_rules().len() + cec_rules().len() + widgets_rules().len()) as int;
    let n6: int = (recovery_rules().len() + node_rules().len() + controllers_rules().len() + cec_rules().len() + widgets_rules().len() + settings_rules().len()) as int;
    let n7: int = (recovery_rules().len() + node_rules().len() + controllers_rules().len() + cec_rules().len() + widgets_rules().len() + settings_rules().len() + web_app_rules().len()) as int;
    let n8: int = (recovery_rules().len() + node_rules().len() + controllers_rules().len() + cec_rules().len() + widgets_rules().len() + settings_rules().len() + web_app_rules().len() + screenshot_rules().len()) as int;
    let n9: int = (recovery_rules().len() + node_rules().len() + controllers_rules().len() + cec_rules().len() + widgets_rules().len() + settings_rules().len() + web_app_rules().len() + screenshot_rules().len() + deploy_rules().len()) as int;
    if i < n1 {
        assert(r == recovery_rules()[i - n0]);
        lemma_recovery_fit(i - n0);
    } else if i < n2 {
        assert(r == node_rules()[i - n1]);
        lemma_node_fit(i - n1);
    } else if i < n3 {
        assert(r == controllers_rules()[i - n2]);
        lemma_controllers_fit(i - n2);
    } else if i < n4 {
        assert(r == cec_rules()[i - n3]);
        lemma_cec_fit(i - n3);
    } else if i < n5 {
        assert(r == widgets_rules()[i - n4]);
        lemma_widgets_fit(i - n4);
    } else if i < n6 {
        assert(r == settings_rules()[i - n5]);
        lemma_settings_fit(i - n5);
    } else if i < n7 {
        assert(r == web_app_rules()[i - n6]);
        lemma_web_app_fit(i - n6);
    } else if i < n8 {
        assert(r == screenshot_rules()[i - n7]);
        lemma_screenshot_fit(i - n7);
    } else if i < n9 {
        assert(r == deploy_rules()[i - n8]);
        lemma_deploy_fit(i - n8);
    } else {
        assert(r == danger_rules()[i - n9]);
        lemma_danger_fit(i - n9);
    }
}

/// A route is there exactly if its gate is open and, where it is dangerous, the operator allows
/// what is.
pub proof fn law_what_is_there(r: RouteRule, allow_dangerous: bool, caps: CapabilitySnapshot)
    ensures
        !r.dangerous ==> (is_there(r, allow_dangerous, caps) <==> capabilities::open_gate(
            caps,
            r.gate,
        )),
        r.dangerous && !allow_dangerous ==> !is_there(r, allow_dangerous, caps),
        r.dangerous && allow_dangerous ==> (is_there(r, allow_dangerous, caps)
            <==> capabilities::open_gate(caps, r.gate)),
{
}

} // verus!
