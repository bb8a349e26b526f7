//! The radios of the machine, as the panel drives them.

use crate::html;
use crate::html::esc;
use crate::ipc_console;
use crate::ipc_console::{
    error_result, line_of, validate_iface, validate_token, Ask, IpcResult,
};
use crate::text;
use vstd::prelude::*;

verus! {

/// What can be done with a Bluetooth device.
pub const BT_ACTIONS: [&'static str; 4] = ["connect", "disconnect", "pair", "trust"];

/// A form with the name of an interface.
#[derive(Debug, Clone, PartialEq, Eq)]
pub struct IfaceForm {
    pub iface: String,
}

/// A form with a host, and how often it is to be asked.
#[derive(Debug, Clone, PartialEq, Eq)]
pub struct PingForm {
    pub host: String,
    pub count: Option<String>,
}

/// A form with a Bluetooth device and what is to be done with it.
#[derive(Debug, Clone, PartialEq, Eq)]
pub struct BtActionForm {
    pub mac: String,
    pub action: String,
}

/// The throughput of an interface.
pub fn render_throughput(form: &IfaceForm) -> (r: Ask)
    ensures
        r@ == ipc_console::line_with("net-throughput "@, ipc_console::iface_of(form.iface@)),
{
    line_of("net-throughput ", validate_iface(form.iface.as_str()))
}

/// How often a host is to be asked: not said, a number from 1 to 10, or something
/// else.
pub open spec fn count_of(count: Option<String>) -> Result<Option<nat>, ()> {
    match count {
        None => Ok(None),
        Some(c) => if text::trimmed(c@).len() == 0 {
            Ok(None)
        } else {
            match text::parsed_uint(text::trimmed(c@), 10, u32::MAX as nat) {
                Some(n) => if 1 <= n <= 10 {
                    Ok(Some(n))
                } else {
                    Err(())
                },
                None => Err(()),
            }
        },
    }
}

/// The line that asks a host.
pub open spec fn ping_line(form: PingForm) -> ipc_console::AskView {
    match ipc_console::word_of(form.host@) {
        Err(e) => ipc_console::AskView::Shown(ipc_console::failure(e)),
        Ok(host) => match count_of(form.count) {
            Ok(None) => ipc_console::AskView::Line("net-ping "@ + host),
            Ok(Some(n)) => ipc_console::AskView::Line(
                "net-ping "@ + host + " "@ + text::dec(n),
            ),
            Err(_) => ipc_console::AskView::Shown(
                ipc_console::failure("count must be an integer between 1 and 10"@),
            ),
        },
    }
}

/// Asks a host whether it is there.
pub fn render_ping(form: &PingForm) -> (r: Ask)
    ensures
        r@ == ping_line(*form),
{
    let host = match validate_token(form.host.as_str()) {
        Ok(h) => h,
        Err(e) => {
            return Ask::Shown(error_result(e.as_str()));
        },
    };
    let mut line = "net-ping ".to_owned();
    line.push_str(host.as_str());
    match &form.count {
        None => {},
        Some(c) => {
            let t = text::trim(c.as_str());
            if !t.as_str().is_empty() {
                match text::parse_uint(t.as_str(), 10, u32::MAX as u64) {
                    Some(n) => {
                        if 1 <= n && n <= 10 {
                            line.push_str(" ");
                            line.push_str(text::decimal(n).as_str());
                        } else {
                            return Ask::Shown(
                                error_result("count must be an integer between 1 and 10"),
                            );
                        }
                    },
                    None => {
                        return Ask::Shown(
                            error_result("count must be an integer between 1 and 10"),
                        );
                    },
                }
            }
        },
    }
    Ask::Line(line)
}

/// A Bluetooth device.
#[derive(Debug, Clone, PartialEq, Eq)]
pub struct BtDevice {
    pub mac: String,
    pub name: Option<String>,
    pub paired: bool,
    pub connected: bool,
    pub trusted: bool,
}

/// What is true of a device, in words.
pub open spec fn flags_of(d: BtDevice) -> Seq<Seq<char>> {
    let none = Seq::<Seq<char>>::empty();
    let a = if d.paired {
        none.push("paired"@)
    } else {
        none
    };
    let b = if d.connected {
        a.push("connected"@)
    } else {
        a
    };
    if d.trusted {
        b.push("trusted"@)
    } else {
        b
    }
}

/// A button for a device.
pub open spec fn action_html(mac: Seq<char>, action: Seq<char>) -> Seq<char> {
    "<form hx-post=\"/devices/network/bt/action\" hx-disabled-elt=\"find button\" hx-target=\"#network-result\" hx-swap=\"innerHTML\" class=\"inline-form\">\n                             <input type=\"hidden\" name=\"mac\" value=\""@
        + html::escaped(mac) + "\">\n                             <input type=\"hidden\" name=\"action\" value=\""@
        + action + "\">\n                             <button class=\"btn-mutate\" type=\"submit\">"@
        + action + "</button>\n                           </form>"@
}

/// A device in the table.
pub open spec fn device_html(d: BtDevice) -> Seq<char> {
    "<tr><td>"@ + html::escaped(
        match d.name {
            Some(n) => n@,
            None => "(unnamed)"@,
        },
    ) + "</td><td>"@ + html::escaped(d.mac@) + "</td><td class=\"muted\">"@ + html::escaped(
        text::joined(flags_of(d), " "@),
    ) + "</td><td>"@ + action_html(d.mac@, "connect"@) + action_html(d.mac@, "disconnect"@)
        + action_html(d.mac@, "pair"@) + action_html(d.mac@, "trust"@) + "</td></tr>"@
}

/// Devices in the table.
pub open spec fn devices_html(devices: Seq<BtDevice>) -> Seq<char>
    decreases devices.len(),
{
    if devices.len() == 0 {
        "<table class=\"tools-table\"><thead><tr><th>Name</th><th>MAC</th><th>State</th><th>Actions</th></tr></thead><tbody>"@
    } else {
        devices_html(devices.drop_last()) + device_html(devices.last())
    }
}

/// What is shown of the known devices.
pub open spec fn bt_list(devices: Seq<BtDevice>) -> ipc_console::IpcShown {
    ipc_console::IpcShown {
        ok: true,
        warning: Seq::empty(),
        body_html: if devices.len() == 0 {
            "<p class=\"muted\">No known Bluetooth devices.</p>"@
        } else {
            devices_html(devices) + "</tbody></table>"@
        },
    }
}

fn action_form(mac: &str, action: &str) -> (r: String)
    ensures
        r@ == action_html(mac@, action@),
{
    let mut out =
        "<form hx-post=\"/devices/network/bt/action\" hx-disabled-elt=\"find button\" hx-target=\"#network-result\" hx-swap=\"innerHTML\" class=\"inline-form\">\n                             <input type=\"hidden\" name=\"mac\" value=\"".to_owned();
    out.push_str(esc(mac).as_str());
    out.push_str("\">\n                             <input type=\"hidden\" name=\"action\" value=\"");
    out.push_str(action);
    out.push_str("\">\n                             <button class=\"btn-mutate\" type=\"submit\">");
    out.push_str(action);
    out.push_str("</button>\n                           </form>");
    out
}

fn flag_words(d: &BtDevice) -> (r: String)
    ensures
        r@ == text::joined(flags_of(*d), " "@),
{
    let mut flags: Vec<String> = Vec::new();
    if d.paired {
        flags.push("paired".to_owned());
    }
    if d.connected {
        flags.push("connected".to_owned());
    }
    if d.trusted {
        flags.push("trusted".to_owned());
    }
    assert(text::views(flags@) =~= flags_of(*d));
    text::join(&flags, " ")
}

fn device_row(d: &BtDevice) -> (r: String)
    ensures
        r@ == device_html(*d),
{
    let name = match &d.name {
        Some(n) => esc(n.as_str()),
        None => esc("(unnamed)"),
    };
    let mac = d.mac.as_str();
    let mut out = "<tr><td>".to_owned();
    out.push_str(name.as_str());
    out.push_str("</td><td>");
    out.push_str(esc(mac).as_str());
    out.push_str("</td><td class=\"muted\">");
    out.push_str(esc(flag_words(d).as_str()).as_str());
    out.push_str("</td><td>");
    out.push_str(action_form(mac, "connect").as_str());
    out.push_str(action_form(mac, "disconnect").as_str());
    out.push_str(action_form(mac, "pair").as_str());
    out.push_str(action_form(mac, "trust").as_str());
    out.push_str("</td></tr>");
    out
}

/// What is shown of the known devices, or of the error in their place.
pub fn render_bt_list(reply: Result<Vec<BtDevice>, String>) -> (r: IpcResult)
    ensures
        match reply {
            Ok(devices) => r@ == bt_list(devices@),
            Err(e) => r@ == ipc_console::failure(e@),
        },
{
    match reply {
        Ok(devices) => {
            if devices.len() == 0 {
                return IpcResult {
                    ok: true,
                    warning: String::new(),
                    body_html: "<p class=\"muted\">No known Bluetooth devices.</p>".to_owned(),
                };
            }
            let mut out =
                "<table class=\"tools-table\"><thead><tr><th>Name</th><th>MAC</th><th>State</th><th>Actions</th></tr></thead><tbody>".to_owned();
            let mut i: usize = 0;
            assert(devices@.take(0) =~= Seq::empty());
            while i < devices.len()
                invariant
                    i <= devices.len(),
                    out@ == devices_html(devices@.take(i as int)),
                decreases devices.len() - i,
            {
                let ghost next = devices@.take(i + 1);
                assert(next.drop_last() =~= devices@.take(i as int));
                assert(next.last() == devices@[i as int]);
                out.push_str(device_row(&devices[i]).as_str());
                i += 1;
            }
            assert(devices@.take(i as int) =~= devices@);
            out.push_str("</tbody></table>");
            IpcResult { ok: true, warning: String::new(), body_html: out }
        },
        Err(e) => error_result(e.as_str()),
    }
}

/// Whether something can be done with a device.
pub open spec fn is_bt_action(action: Seq<char>) -> bool {
    action == "connect"@ || action == "disconnect"@ || action == "pair"@ || action == "trust"@
}

/// Does something with a device; only what the table offers.
pub fn render_bt_action(form: &BtActionForm) -> (r: Ask)
    ensures
        r@ == (if is_bt_action(form.action@) {
            ipc_console::line_with(
                "bt-"@ + form.action@ + " "@,
                ipc_console::word_of(form.mac@),
            )
        } else {
            ipc_console::AskView::Shown(
                ipc_console::failure(
                    "unknown bluetooth action "@ + text::debugged(form.action@),
                ),
            )
        }),
{
    let action = form.action.as_str();
    let known = text::same_text(action, BT_ACTIONS[0]) || text::same_text(action, BT_ACTIONS[1])
        || text::same_text(action, BT_ACTIONS[2]) || text::same_text(action, BT_ACTIONS[3]);
    if !known {
        let mut m = "unknown bluetooth action ".to_owned();
        m.push_str(text::debug_text(action).as_str());
        return Ask::Shown(error_result(m.as_str()));
    }
    let mut head = "bt-".to_owned();
    head.push_str(action);
    head.push_str(" ");
    line_of(head.as_str(), validate_token(form.mac.as_str()))
}

// ---------------------------------------------------------------------------
// Laws
// ---------------------------------------------------------------------------

/// A host is asked as often as the form says, from once to ten times, and as often as the
/// daemon likes where it says nothing; anything else is refused and nothing is sent.
pub proof fn law_pings_are_counted(form: PingForm, n: nat)
    ensures
        ipc_console::word_of(form.host@) matches Ok(host) ==> {
            let said = text::trimmed(form.count->0@);
            &&& form.count is None || said.len() == 0 ==> ping_line(form)
                == ipc_console::AskView::Line("net-ping "@ + host)
            &&& form.count is Some && said == text::dec(n) && 1 <= n <= 10 ==> ping_line(form)
                == ipc_console::AskView::Line("net-ping "@ + host + " "@ + text::dec(n))
            &&& form.count is Some && said == text::dec(n) && (n == 0 || n > 10) ==> ping_line(form)
                == ipc_console::AskView::Shown(
                ipc_console::failure("count must be an integer between 1 and 10"@),
            )
            &&& form.count is Some && said.len() > 0 && text::parsed_uint(
                said,
                10,
                u32::MAX as nat,
            ) is None ==> ping_line(form) == ipc_console::AskView::Shown(
                ipc_console::failure("count must be an integer between 1 and 10"@),
            )
        },
        ipc_console::word_of(form.host@) matches Err(e) ==> ping_line(form)
            == ipc_console::AskView::Shown(ipc_console::failure(e)),
{
    text::lemma_dec(n);
    if n <= u32::MAX {
        text::lemma_parsed_dec(n, u32::MAX as nat);
    }
}

/// What is said of the state of a device is what is true of it, and nothing else.
pub proof fn law_flags_are_true(d: BtDevice)
    ensures
        flags_of(d).contains("paired"@) <==> d.paired,
        flags_of(d).contains("connected"@) <==> d.connected,
        flags_of(d).contains("trusted"@) <==> d.trusted,
        forall|i: int|
            0 <= i < flags_of(d).len() ==> (#[trigger] flags_of(d)[i] == "paired"@ || flags_of(
                d,
            )[i] == "connected"@ || flags_of(d)[i] == "trusted"@),
{
    reveal_strlit("paired");
    reveal_strlit("connected");
    reveal_strlit("trusted");
    assert("paired"@.len() == 6 && "connected"@.len() == 9 && "trusted"@.len() == 7);
    let f = flags_of(d);
    if d.paired {
        assert(f[0] == "paired"@);
    }
    if d.connected {
        assert(f[if d.paired {
            1
        } else {
            0int
        }] == "connected"@);
    }
    if d.trusted {
        assert(f[f.len() - 1] == "trusted"@);
    }
}

/// A button sends the address of its device and its own action, and is labelled with it.
pub proof fn law_buttons_send_their_action(mac: Seq<char>, action: Seq<char>)
    ensures
        ({
            let html = action_html(mac, action);
            &&& text::has_text(html, "name=\"mac\" value=\""@ + html::escaped(mac) + "\">"@)
            &&& text::has_text(html, "name=\"action\" value=\""@ + action + "\">"@)
            &&& text::has_text(html, "type=\"submit\">"@ + action + "</button>"@)
            &&& text::has_text(html, "<form hx-post=\"/devices/network/bt/action\""@)
        }),
{
    let a = "<form hx-post=\"/devices/network/bt/action\" hx-disabled-elt=\"find button\" hx-target=\"#network-result\" hx-swap=\"innerHTML\" class=\"inline-form\">\n                             <input type=\"hidden\" name=\"mac\" value=\""@;
    let b = "\">\n                             <input type=\"hidden\" name=\"action\" value=\""@;
    let c = "\">\n                             <button class=\"btn-mutate\" type=\"submit\">"@;
    let d = "</button>\n                           </form>"@;
    reveal_strlit(
        "<form hx-post=\"/devices/network/bt/action\" hx-disabled-elt=\"find button\" hx-target=\"#network-result\" hx-swap=\"innerHTML\" class=\"inline-form\">\n                             <input type=\"hidden\" name=\"mac\" value=\"",
    );
    reveal_strlit("\">\n                             <input type=\"hidden\" name=\"action\" value=\"");
    reveal_strlit("\">\n                             <button class=\"btn-mutate\" type=\"submit\">");
    reveal_strlit("</button>\n                           </form>");
    reveal_strlit("name=\"mac\" value=\"");
    reveal_strlit("name=\"action\" value=\"");
    reveal_strlit("type=\"submit\">");
    reveal_strlit("\">");
    reveal_strlit("</button>");
    reveal_strlit("<form hx-post=\"/devices/network/bt/action\"");
    let m = html::escaped(mac);
    let html = a + m + b + action + c + action + d;
    assert(html =~= action_html(mac, action));
    let w1 = "name=\"mac\" value=\""@ + m + "\">"@;
    let p1 = a.len() - "name=\"mac\" value=\""@.len();
    assert(html.subrange(p1, p1 + w1.len()) =~= w1);
    assert(text::occurs_at(html, w1, p1));
    let w2 = "name=\"action\" value=\""@ + action + "\">"@;
    let p2 = a.len() + m.len() + b.len() - "name=\"action\" value=\""@.len();
    assert(html.subrange(p2, p2 + w2.len()) =~= w2);
    assert(text::occurs_at(html, w2, p2));
    let w3 = "type=\"submit\">"@ + action + "</button>"@;
    let p3 = a.len() + m.len() + b.len() + action.len() + c.len() - "type=\"submit\">"@.len();
    assert(html.subrange(p3, p3 + w3.len()) =~= w3);
    assert(text::occurs_at(html, w3, p3));
    let w4 = "<form hx-post=\"/devices/network/bt/action\""@;
    assert(html.subrange(0, w4.len() as int) =~= w4);
    assert(text::occurs_at(html, w4, 0));
}

/// A device is shown with its name, or as unnamed, its address and its state, and then with a
/// button for each thing that can be done with it.
pub proof fn law_devices_are_shown_as_they_are(d: BtDevice)
    ensures
        ({
            let name = if d.name is Some {
                d.name->0@
            } else {
                "(unnamed)"@
            };
            let cells = "<tr><td>"@ + html::escaped(name) + "</td><td>"@ + html::escaped(d.mac@)
                + "</td><td class=\"muted\">"@ + html::escaped(text::joined(flags_of(d), " "@))
                + "</td><td>"@;
            let buttons = action_html(d.mac@, "connect"@) + action_html(d.mac@, "disconnect"@)
                + action_html(d.mac@, "pair"@) + action_html(d.mac@, "trust"@);
            &&& device_html(d).take(cells.len() as int) == cells
            &&& text::occurs_at(device_html(d), buttons, cells.len() as int)
        }),
{
    let name = if d.name is Some {
        d.name->0@
    } else {
        "(unnamed)"@
    };
    let cells = "<tr><td>"@ + html::escaped(name) + "</td><td>"@ + html::escaped(d.mac@)
        + "</td><td class=\"muted\">"@ + html::escaped(text::joined(flags_of(d), " "@))
        + "</td><td>"@;
    let buttons = action_html(d.mac@, "connect"@) + action_html(d.mac@, "disconnect"@)
        + action_html(d.mac@, "pair"@) + action_html(d.mac@, "trust"@);
    assert(device_html(d) =~= cells + buttons + "</td></tr>"@);
    assert(device_html(d).take(cells.len() as int) =~= cells);
    let n = cells.len() as int;
    assert(device_html(d).subrange(n, n + buttons.len()) =~= buttons);
}

/// The table shows every device, in its order.
pub proof fn law_every_device_is_shown(devices: Seq<BtDevice>)
    ensures
        bt_list(devices).ok,
        bt_list(devices).warning.len() == 0,
        devices.len() == 0 ==> bt_list(devices).body_html
            == "<p class=\"muted\">No known Bluetooth devices.</p>"@,
        devices.len() > 0 ==> bt_list(devices).body_html
            == "<table class=\"tools-table\"><thead><tr><th>Name</th><th>MAC</th><th>State</th><th>Actions</th></tr></thead><tbody>"@
            + text::joined(devices.map_values(|d: BtDevice| device_html(d)), Seq::empty())
            + "</tbody></table>"@,
{
    lemma_rows(devices);
}

proof fn lemma_rows(devices: Seq<BtDevice>)
    ensures
        devices_html(devices)
            == "<table class=\"tools-table\"><thead><tr><th>Name</th><th>MAC</th><th>State</th><th>Actions</th></tr></thead><tbody>"@
            + text::joined(devices.map_values(|d: BtDevice| device_html(d)), Seq::empty()),
    decreases devices.len(),
{
    let head =
        "<table class=\"tools-table\"><thead><tr><th>Name</th><th>MAC</th><th>State</th><th>Actions</th></tr></thead><tbody>"@;
    let rows = devices.map_values(|d: BtDevice| device_html(d));
    if devices.len() > 0 {
        let rest = devices.drop_last();
        lemma_rows(rest);
        assert(rows.drop_last() =~= rest.map_values(|d: BtDevice| device_html(d)));
        assert(rows.last() == device_html(devices.last()));
        if devices.len() == 1 {
            assert(text::joined(rest.map_values(|d: BtDevice| device_html(d)), Seq::empty())
                =~= Seq::empty());
            assert(devices_html(devices) =~= head + rows[0]);
        } else {
            assert(devices_html(devices) =~= head + text::joined(rows, Seq::empty()));
        }
    } else {
        assert(devices_html(devices) =~= head + text::joined(rows, Seq::empty()));
    }
}

/// Four things can be done with a device, and no other.
pub proof fn law_four_actions(action: Seq<char>)
    ensures
        is_bt_action(action) <==> seq!["connect"@, "disconnect"@, "pair"@, "trust"@].contains(
            action,
        ),
{
    let all = seq!["connect"@, "disconnect"@, "pair"@, "trust"@];
    assert(all[0] == "connect"@ && all[1] == "disconnect"@ && all[2] == "pair"@ && all[3]
        == "trust"@);
}

} // verus!
